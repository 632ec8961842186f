//! What window keys and window commands do, said in cells, windows and tabs.
use vstd::prelude::*;

use crate::buffer::{Buffer, BufferId, PdfBuffer};
use crate::commands::{ParsedCommand, SplitDirection};
use crate::dispatch;
use crate::document::PageMetrics;
use crate::keys::WindowOp;
use crate::number::Real32;
use crate::opening;
use crate::pool::{self, Slot};
use crate::splits;
use crate::viewport::Viewport;
use crate::window::{self, Axis, CellRect, Direction, Window, WindowId, WindowTree};
use crate::window_laws;
use crate::workspace::{self, CacheSettings, Source, Tab, Workspace, WorkspaceError};

verus! {

/// The same windows in the same order, but for marks for a repaint.
pub open spec fn alike_windows(x: Seq<Window>, y: Seq<Window>) -> bool {
    &&& x.len() == y.len()
    &&& forall|i: int|
        0 <= i < x.len() ==> (Window { dirty: true, ..#[trigger] x[i] }) == (Window {
            dirty: true,
            ..y[i]
        })
}

/// The same tab, but for marks for a repaint.
pub open spec fn alike(t: Tab, u: Tab) -> bool {
    t.focused == u.focused && alike_windows(t.tree.leaves(), u.tree.leaves())
}

proof fn lemma_dirtied_alike(t: Tab)
    ensures
        alike(workspace::dirtied(t), t),
        alike(t, t),
{
    t.tree.lemma_dirtied();
}

/// Marks for a repaint do not matter to the layout.
proof fn lemma_dirtied_laid_out<F: Fn(u16, Real32) -> u16>(
    t: WindowTree,
    rect: CellRect,
    share: &F,
    out: Seq<(WindowId, CellRect)>,
)
    ensures
        t.dirtied().laid_out(rect, share, out) == t.laid_out(rect, share, out),
    decreases t,
{
    if let WindowTree::Split { axis, a, b, ratio } = t {
        assert forall|r: CellRect, o: Seq<(WindowId, CellRect)>| #[trigger]
            a.dirtied().laid_out(r, share, o) == a.laid_out(r, share, o) by {
            lemma_dirtied_laid_out(*a, r, share, o);
        }
        assert forall|r: CellRect, o: Seq<(WindowId, CellRect)>| #[trigger]
            b.dirtied().laid_out(r, share, o) == b.laid_out(r, share, o) by {
            lemma_dirtied_laid_out(*b, r, share, o);
        }
        if !rect.empty() {
            if t.laid_out(rect, share, out) {
                let (raw, k) = choose|raw: u16, k: int|
                    {
                        let n = window::cut(window::extent(rect, axis), raw);
                        &&& #[trigger] call_ensures(
                            share,
                            (window::extent(rect, axis), window::bounded_ratio(ratio)),
                            raw,
                        )
                        &&& 0 <= k <= out.len()
                        &&& a.laid_out(
                            window::before_cut(rect, axis, n),
                            share,
                            #[trigger] out.take(k),
                        )
                        &&& b.laid_out(window::after_cut(rect, axis, n), share, out.skip(k))
                    };
                let n = window::cut(window::extent(rect, axis), raw);
                assert(a.dirtied().laid_out(
                    window::before_cut(rect, axis, n),
                    share,
                    out.take(k),
                ));
                assert(b.dirtied().laid_out(window::after_cut(rect, axis, n), share, out.skip(k)));
            }
            if t.dirtied().laid_out(rect, share, out) {
                let (raw, k) = choose|raw: u16, k: int|
                    {
                        let n = window::cut(window::extent(rect, axis), raw);
                        &&& #[trigger] call_ensures(
                            share,
                            (window::extent(rect, axis), window::bounded_ratio(ratio)),
                            raw,
                        )
                        &&& 0 <= k <= out.len()
                        &&& a.dirtied().laid_out(
                            window::before_cut(rect, axis, n),
                            share,
                            #[trigger] out.take(k),
                        )
                        &&& b.dirtied().laid_out(
                            window::after_cut(rect, axis, n),
                            share,
                            out.skip(k),
                        )
                    };
                let n = window::cut(window::extent(rect, axis), raw);
                assert(a.laid_out(window::before_cut(rect, axis, n), share, out.take(k)));
                assert(b.laid_out(window::after_cut(rect, axis, n), share, out.skip(k)));
            }
        }
    }
}

/// Focus went to a window that lies that way and faces the one that had it;
/// or it stayed, and no window does in the layout that was looked at.
pub open spec fn steps_to<D, F: Fn(u16, Real32) -> u16>(
    before: Workspace<D>,
    after: Workspace<D>,
    dir: Direction,
    share: &F,
) -> bool {
    exists|out: Seq<(WindowId, CellRect)>|
        {
            &&& #[trigger] before.tab_now().tree.laid_out(before.last_rect, share, out)
            &&& after.tab_now().focused != before.tab_now().focused ==> exists|k: int, i: int|
                {
                    &&& 0 <= k < out.len() && 0 <= i < out.len()
                    &&& (#[trigger] out[k]).0 == before.tab_now().focused
                    &&& (#[trigger] out[i]).0 == after.tab_now().focused
                    &&& window_laws::faces(out[k].1, dir, out[i].1)
                }
            &&& after.tab_now().focused == before.tab_now().focused ==> forall|k: int, i: int|
                {
                    &&& 0 <= k < out.len() && 0 <= i < out.len()
                    &&& (#[trigger] out[k]).0 == before.tab_now().focused
                    &&& (#[trigger] out[i]).0 != before.tab_now().focused
                } ==> !window_laws::faces(out[k].1, dir, out[i].1)
        }
}

proof fn lemma_out_on_grid<F: Fn(u16, Real32) -> u16>(
    t: WindowTree,
    rect: CellRect,
    share: &F,
    out: Seq<(WindowId, CellRect)>,
)
    requires
        rect.on_grid(),
        t.laid_out(rect, share, out),
    ensures
        window_laws::all_on_grid(out),
{
    t.lemma_layout_tiles(rect, share, out);
    assert forall|i: int| 0 <= i < out.len() implies (#[trigger] out[i]).1.on_grid() by {
        let r = out[i].1;
        assert(!r.empty());
        assert(r.covers(r.col + r.cols - 1, r.row + r.rows - 1));
    }
}

/// No two entries of a layout are of one window.
proof fn lemma_out_distinct<F: Fn(u16, Real32) -> u16>(
    t: WindowTree,
    rect: CellRect,
    share: &F,
    out: Seq<(WindowId, CellRect)>,
)
    requires
        rect.on_grid(),
        window::distinct(t.leaves()),
        t.laid_out(rect, share, out),
    ensures
        forall|i: int, j: int|
            0 <= i < out.len() && 0 <= j < out.len() && i != j ==> (#[trigger] out[i]).0 != (
            #[trigger] out[j]).0,
    decreases t,
{
    if !rect.empty() {
        if let WindowTree::Split { axis, a, b, ratio } = t {
            let (raw, k) = choose|raw: u16, k: int|
                {
                    let n = window::cut(window::extent(rect, axis), raw);
                    &&& #[trigger] call_ensures(
                        share,
                        (window::extent(rect, axis), window::bounded_ratio(ratio)),
                        raw,
                    )
                    &&& 0 <= k <= out.len()
                    &&& a.laid_out(window::before_cut(rect, axis, n), share, #[trigger] out.take(k))
                    &&& b.laid_out(window::after_cut(rect, axis, n), share, out.skip(k))
                };
            let n = window::cut(window::extent(rect, axis), raw);
            let first = window::before_cut(rect, axis, n);
            let second = window::after_cut(rect, axis, n);
            let x = out.take(k);
            let y = out.skip(k);
            window_laws::lemma_halves_distinct(a.leaves(), b.leaves());
            lemma_out_distinct(*a, first, share, x);
            lemma_out_distinct(*b, second, share, y);
            window_laws::lemma_layout_is_of_tree(*a, first, share, x);
            window_laws::lemma_layout_is_of_tree(*b, second, share, y);
            assert forall|i: int, j: int|
                0 <= i < out.len() && 0 <= j < out.len() && i != j implies (#[trigger] out[i]).0
                != (#[trigger] out[j]).0 by {
                window_laws::lemma_not_in_both(*a, *b, out[i].0);
                if i < k {
                    assert(out[i] == x[i]);
                } else {
                    assert(out[i] == y[i - k]);
                }
                if j < k {
                    assert(out[j] == x[j]);
                } else {
                    assert(out[j] == y[j - k]);
                }
            }
        }
    }
}

proof fn lemma_looked_steps<D, F: Fn(u16, Real32) -> u16>(
    before: Workspace<D>,
    after: Workspace<D>,
    dir: Direction,
    share: &F,
)
    requires
        before.live(),
        splits::looked(before, after, dir, share),
    ensures
        steps_to(before, after, dir, share),
        alike_windows(after.tab_now().tree.leaves(), before.tab_now().tree.leaves()),
        after.tabs@.len() == before.tabs@.len(),
        after.current_tab == before.current_tab,
{
    let t = before.tab_now();
    let f = t.focused;
    lemma_dirtied_alike(t);
    let (out, next) = choose|out: Seq<(WindowId, CellRect)>, next: Option<WindowId>|
        {
            &&& #[trigger] t.tree.laid_out(before.last_rect, share, out)
            &&& #[trigger] window::is_neighbour(out, f, dir, next)
            &&& after.tabs@ == splits::focused_on(before, next)
        };
    assert(workspace::tab_ok(
        before.tabs@[before.current_tab as int],
        before.win_ids.upcoming,
        before.buf_ids.upcoming,
    ));
    lemma_out_on_grid(t.tree, before.last_rect, share, out);
    lemma_out_distinct(t.tree, before.last_rect, share, out);
    window_laws::lemma_layout_is_of_tree(t.tree, before.last_rect, share, out);
    window::lemma_entry(out, f);
    match window::entry(out, f) {
        Some(k) => {
            window_laws::lemma_neighbour_lies_there(out, k, dir, next);
            match next {
                Some(id) => {
                    let i = choose|i: int|
                        {
                            &&& 0 <= i < out.len()
                            &&& (#[trigger] out[i]).0 == id
                            &&& id != out[k].0
                            &&& window_laws::faces(out[k].1, dir, out[i].1)
                        };
                    assert(t.tree.has(out[i].0));
                    assert(after.tab_now().focused == id);
                    assert(out[k].0 == f && out[i].0 == id);
                },
                None => {
                    assert(after.tab_now() == before.tab_now());
                },
            }
        },
        None => {
            assert(after.tab_now() == before.tab_now());
        },
    }
    assert(t.tree.laid_out(before.last_rect, share, out));
}

/// The four keys that move focus each go their own way.
pub proof fn lemma_focus_keys<D: PageMetrics, F: Fn(u16, Real32) -> u16, G: Fn(
    Real32,
    i32,
    u16,
) -> Real32>(
    before: Workspace<D>,
    after: Workspace<D>,
    op: WindowOp,
    share: &F,
    nudged: &G,
    r: Result<(), WorkspaceError>,
)
    requires
        before.live(),
        dispatch::op_result(before, after, op, share, nudged, r),
    ensures
        op == WindowOp::FocusLeft ==> steps_to(before, after, Direction::Left, share),
        op == WindowOp::FocusRight ==> steps_to(before, after, Direction::Right, share),
        op == WindowOp::FocusUp ==> steps_to(before, after, Direction::Up, share),
        op == WindowOp::FocusDown ==> steps_to(before, after, Direction::Down, share),
        op == WindowOp::FocusLeft || op == WindowOp::FocusRight || op == WindowOp::FocusUp || op
            == WindowOp::FocusDown ==> {
            &&& r is Ok
            &&& alike_windows(after.tab_now().tree.leaves(), before.tab_now().tree.leaves())
            &&& after.pool == before.pool
            &&& after.current_tab == before.current_tab
        },
{
    match op {
        WindowOp::FocusLeft => lemma_looked_steps(before, after, Direction::Left, share),
        WindowOp::FocusRight => lemma_looked_steps(before, after, Direction::Right, share),
        WindowOp::FocusUp => lemma_looked_steps(before, after, Direction::Up, share),
        WindowOp::FocusDown => lemma_looked_steps(before, after, Direction::Down, share),
        _ => {},
    }
}

/// Cycling goes to the next window in the order of the tree, from the last to
/// the first; reversed to the one before.
pub proof fn lemma_cycle_keys<D: PageMetrics, F: Fn(u16, Real32) -> u16, G: Fn(
    Real32,
    i32,
    u16,
) -> Real32>(
    before: Workspace<D>,
    after: Workspace<D>,
    reverse: bool,
    share: &F,
    nudged: &G,
    r: Result<(), WorkspaceError>,
)
    requires
        before.live(),
        dispatch::op_result(
            before,
            after,
            WindowOp::FocusCycle { reverse },
            share,
            nudged,
            r,
        ),
    ensures
        ({
            let x = before.tab_now().tree.leaves();
            let n = x.len() as int;
            let i = before.focus_at();
            &&& 0 <= i < n
            &&& x[i].id == before.tab_now().focused
            &&& !reverse && i + 1 < n ==> after.tab_now().focused == x[i + 1].id
            &&& !reverse && i + 1 == n ==> after.tab_now().focused == x[0].id
            &&& reverse && i > 0 ==> after.tab_now().focused == x[i - 1].id
            &&& reverse && i == 0 ==> after.tab_now().focused == x[n - 1].id
            &&& alike_windows(after.tab_now().tree.leaves(), x)
        }),
{
    let t = before.tab_now();
    let x = t.tree.leaves();
    let n = x.len() as int;
    lemma_dirtied_alike(t);
    workspace::lemma_focus(before);
    let i = before.focus_at();
    assert(workspace::tab_ok(
        before.tabs@[before.current_tab as int],
        before.win_ids.upcoming,
        before.buf_ids.upcoming,
    ));
    window_laws::lemma_cycle_order(t.tree, i);
    if i > 0 {
        window_laws::lemma_cycle_order(t.tree, i - 1);
    } else {
        window_laws::lemma_cycle_order(t.tree, n - 1);
    }
    let next = t.tree.cycled(t.focused, reverse)->0;
    window::lemma_position(x, next);
}

/// Splitting opens a window after the focused one, on the same buffer at the
/// same place, and gives it focus; no other window changes.
pub open spec fn opened_beside<D>(before: Workspace<D>, after: Workspace<D>) -> bool {
    let x = before.tab_now().tree.leaves();
    let y = after.tab_now().tree.leaves();
    let i = before.focus_at();
    &&& y.len() == x.len() + 1
    &&& y[i + 1].id == after.tab_now().focused
    &&& y[i + 1].buffer == x[i].buffer
    &&& y[i + 1].viewport == x[i].viewport
    &&& alike_windows(y.remove(i + 1), x)
    &&& !before.tab_now().tree.has(after.tab_now().focused)
    &&& after.current_tab == before.current_tab
}

/// Where the tab had one window, the new one shows on that side of it wherever
/// both have room.
pub open spec fn new_one_lies<D, F: Fn(u16, Real32) -> u16>(
    before: Workspace<D>,
    after: Workspace<D>,
    dir: Direction,
    share: &F,
) -> bool {
    before.tab_now().tree is Leaf ==> forall|rect: CellRect, out: Seq<(WindowId, CellRect)>|
        {
            &&& rect.on_grid() && rect.cols >= 2 && rect.rows >= 2
            &&& #[trigger] after.tab_now().tree.laid_out(rect, share, out)
        } ==> {
            &&& out.len() == 2
            &&& out[0].0 == before.tab_now().focused
            &&& out[1].0 == after.tab_now().focused
            &&& window_laws::faces(out[0].1, dir, out[1].1)
        }
}

proof fn lemma_shared_splits<D: PageMetrics, F: Fn(u16, Real32) -> u16>(
    before: Workspace<D>,
    after: Workspace<D>,
    axis: Axis,
    share: &F,
)
    requires
        before.live(),
        opening::shared(before, after, axis),
    ensures
        opened_beside(before, after),
        new_one_lies(
            before,
            after,
            if axis == Axis::Horizontal {
                Direction::Down
            } else {
                Direction::Right
            },
            share,
        ),
{
    let t = before.tab_now();
    let x = t.tree.leaves();
    let i = before.focus_at();
    let here = before.focus_now();
    let w = Window::fresh(WindowId(before.win_ids.upcoming), here.buffer, here.viewport);
    workspace::lemma_focus(before);
    t.tree.lemma_split_inserts(t.focused, axis, w);
    let u = t.tree.split_at(t.focused, axis, w)->0;
    u.lemma_dirtied();
    assert(after.tab_now().tree == u.dirtied());
    assert(u.leaves() == x.insert(i + 1, w));
    assert(workspace::tab_ok(
        before.tabs@[before.current_tab as int],
        before.win_ids.upcoming,
        before.buf_ids.upcoming,
    ));
    window::lemma_position(x, w.id);
    let y = after.tab_now().tree.leaves();
    assert(y[i + 1] == (Window { dirty: true, ..u.leaves()[i + 1] }));
    assert forall|j: int| 0 <= j < x.len() implies (Window {
        dirty: true,
        ..#[trigger] y.remove(i + 1)[j]
    }) == (Window { dirty: true, ..x[j] }) by {
        if j <= i {
            assert(u.leaves()[j] == x[j]);
            assert(y[j] == (Window { dirty: true, ..u.leaves()[j] }));
        } else {
            assert(u.leaves()[j + 1] == x[j]);
            assert(y[j + 1] == (Window { dirty: true, ..u.leaves()[j + 1] }));
        }
    }
    if let WindowTree::Leaf(old_one) = t.tree {
        assert(x =~= seq![old_one]);
        assert forall|rect: CellRect, out: Seq<(WindowId, CellRect)>|
            {
                &&& rect.on_grid() && rect.cols >= 2 && rect.rows >= 2
                &&& #[trigger] after.tab_now().tree.laid_out(rect, share, out)
            } implies {
            &&& out.len() == 2
            &&& out[0].0 == t.focused
            &&& out[1].0 == after.tab_now().focused
            &&& window_laws::faces(
                out[0].1,
                if axis == Axis::Horizontal {
                    Direction::Down
                } else {
                    Direction::Right
                },
                out[1].1,
            )
        } by {
            lemma_dirtied_laid_out(u, rect, share, out);
            if axis == Axis::Horizontal {
                window_laws::lemma_horizontal_split(old_one, w, rect, share, out);
            } else {
                window_laws::lemma_vertical_split(old_one, w, rect, share, out);
            }
        }
    }
}

/// The keys that split: one puts the new window below, the other on the right.
pub proof fn lemma_split_keys<D: PageMetrics, F: Fn(u16, Real32) -> u16, G: Fn(
    Real32,
    i32,
    u16,
) -> Real32>(
    before: Workspace<D>,
    after: Workspace<D>,
    op: WindowOp,
    share: &F,
    nudged: &G,
    r: Result<(), WorkspaceError>,
)
    requires
        before.live(),
        dispatch::op_result(before, after, op, share, nudged, r),
    ensures
        op == WindowOp::SplitHorizontal ==> r is Ok && opened_beside(before, after)
            && new_one_lies(before, after, Direction::Down, share),
        op == WindowOp::SplitVertical ==> r is Ok && opened_beside(before, after) && new_one_lies(
            before,
            after,
            Direction::Right,
            share,
        ),
{
    match op {
        WindowOp::SplitHorizontal => lemma_shared_splits(before, after, Axis::Horizontal, share),
        WindowOp::SplitVertical => lemma_shared_splits(before, after, Axis::Vertical, share),
        _ => {},
    }
}

/// Every tab but that one is the same, but for marks for a repaint.
pub open spec fn alike_tabs(x: Seq<Tab>, y: Seq<Tab>) -> bool {
    x.len() == y.len() && forall|i: int| 0 <= i < x.len() ==> alike(#[trigger] x[i], y[i])
}

proof fn lemma_repainted_alike(tabs: Seq<Tab>, i: int)
    requires
        0 <= i < tabs.len(),
    ensures
        alike_tabs(splits::repainted(tabs, i), tabs),
{
    let x = splits::repainted(tabs, i);
    assert forall|j: int| 0 <= j < x.len() implies alike(#[trigger] x[j], tabs[j]) by {
        lemma_dirtied_alike(tabs[j]);
    }
}

/// Going that far in a round of `n` without passing its end.
proof fn lemma_wrapped_plain(cur: int, delta: int, n: int)
    requires
        0 <= cur < n,
    ensures
        0 <= cur + delta < n ==> splits::wrapped(cur, delta, n) == cur + delta,
        n <= cur + delta < 2 * n ==> splits::wrapped(cur, delta, n) == cur + delta - n,
        -n <= cur + delta < 0 ==> splits::wrapped(cur, delta, n) == cur + delta + n,
{
    let x = cur + delta;
    if 0 <= x < n {
        vstd::arithmetic::div_mod::lemma_small_mod(x as nat, n as nat);
    } else if n <= x < 2 * n {
        vstd::arithmetic::div_mod::lemma_mod_add_multiples_vanish(x - n, n);
        vstd::arithmetic::div_mod::lemma_small_mod((x - n) as nat, n as nat);
    } else if -n <= x < 0 {
        vstd::arithmetic::div_mod::lemma_mod_add_multiples_vanish(x, n);
        vstd::arithmetic::div_mod::lemma_small_mod((x + n) as nat, n as nat);
    }
}

/// The next tab is the one on the right, and after the last the first; the
/// previous tab the other way round. A count goes that many tabs. The tabs
/// themselves stay as they are.
pub proof fn lemma_tab_keys<D: PageMetrics, F: Fn(u16, Real32) -> u16, G: Fn(
    Real32,
    i32,
    u16,
) -> Real32>(
    before: Workspace<D>,
    after: Workspace<D>,
    op: WindowOp,
    share: &F,
    nudged: &G,
    r: Result<(), WorkspaceError>,
)
    requires
        before.live(),
        dispatch::op_result(before, after, op, share, nudged, r),
    ensures
        ({
            let cur = before.current_tab as int;
            let n = before.tabs@.len() as int;
            &&& op matches WindowOp::NextTab(k) ==> {
                &&& alike_tabs(after.tabs@, before.tabs@)
                &&& k <= i32::MAX && cur + k < n ==> after.current_tab == cur + k
                &&& k == 1 && cur + 1 == n ==> after.current_tab == 0
            }
            &&& op matches WindowOp::PrevTab(k) ==> {
                &&& alike_tabs(after.tabs@, before.tabs@)
                &&& k <= i32::MAX && k <= cur ==> after.current_tab == cur - k
                &&& k == 1 && cur == 0 ==> after.current_tab == n - 1
            }
        }),
{
    let cur = before.current_tab as int;
    let n = before.tabs@.len() as int;
    match op {
        WindowOp::NextTab(k) => {
            lemma_wrapped_plain(cur, (k as i32) as int, n);
            vstd::arithmetic::div_mod::lemma_mod_bound(cur + (k as i32), n);
            lemma_repainted_alike(before.tabs@, after.current_tab as int);
        },
        WindowOp::PrevTab(k) => {
            lemma_wrapped_plain(cur, -(k as i32), n);
            vstd::arithmetic::div_mod::lemma_mod_bound(cur - (k as i32), n);
            lemma_repainted_alike(before.tabs@, after.current_tab as int);
        },
        _ => {},
    }
}

/// The current tab stands at `to`, and the others keep their order.
pub open spec fn tab_stands<D>(before: Workspace<D>, after: Workspace<D>, to: int) -> bool {
    &&& after.current_tab == to
    &&& after.tabs@.len() == before.tabs@.len()
    &&& alike(after.tabs@[to], before.tab_now())
    &&& alike_tabs(after.tabs@.remove(to), before.tabs@.remove(before.current_tab as int))
}

proof fn lemma_tab_moved_stands<D>(before: Workspace<D>, after: Workspace<D>, delta: int)
    requires
        before.live(),
        splits::tab_moved(before, after, delta),
    ensures
        tab_stands(
            before,
            after,
            splits::wrapped(before.current_tab as int, delta, before.tabs@.len() as int),
        ),
{
    let from = before.current_tab as int;
    let n = before.tabs@.len() as int;
    let to = splits::wrapped(from, delta, n);
    vstd::arithmetic::div_mod::lemma_mod_bound(from + delta, n);
    let rest = before.tabs@.remove(from);
    if to == from {
        lemma_dirtied_alike(before.tab_now());
        assert forall|i: int| 0 <= i < rest.len() implies alike(#[trigger] rest[i], rest[i]) by {
            lemma_dirtied_alike(rest[i]);
        }
    } else {
        let placed = rest.insert(to, before.tab_now());
        lemma_repainted_alike(placed, to);
        assert(after.tabs@[to] == splits::repainted(placed, to)[to]);
        assert(alike(splits::repainted(placed, to)[to], placed[to]));
        let others = after.tabs@.remove(to);
        assert forall|i: int| 0 <= i < others.len() implies alike(#[trigger] others[i], rest[i]) by {
            let j = if i < to {
                i
            } else {
                i + 1
            };
            assert(others[i] == after.tabs@[j]);
            assert(placed[j] == rest[i]);
            assert(alike(splits::repainted(placed, to)[j], placed[j]));
        }
    }
}

/// Moving a tab right puts it one place further right, from the last place to
/// the first, and moving it left the other way; `:tabmove` moves it as far as
/// its number says.
pub proof fn lemma_moving_tabs<
    D: PageMetrics,
    F: Fn(u16, Real32) -> u16,
    G: Fn(Real32, i32, u16) -> Real32,
    H: Fn(Real32, Real32) -> Real32,
>(
    before: Workspace<D>,
    after: Workspace<D>,
    share: &F,
    nudged: &G,
    times: &H,
    caches: CacheSettings,
    r: Result<(), WorkspaceError>,
    n: i32,
)
    requires
        before.live(),
    ensures
        ({
            let cur = before.current_tab as int;
            let count = before.tabs@.len() as int;
            &&& dispatch::op_result(before, after, WindowOp::MoveTabRight, share, nudged, r)
                ==> tab_stands(
                before,
                after,
                if cur + 1 < count {
                    cur + 1
                } else {
                    0
                },
            )
            &&& dispatch::op_result(before, after, WindowOp::MoveTabLeft, share, nudged, r)
                ==> tab_stands(
                before,
                after,
                if cur > 0 {
                    cur - 1
                } else {
                    count - 1
                },
            )
            &&& 0 <= cur + n < count && dispatch::command_result(
                before,
                after,
                ParsedCommand::TabMove(n),
                None,
                times,
                nudged,
                caches,
                r,
            ) ==> tab_stands(before, after, cur + n)
        }),
{
    let cur = before.current_tab as int;
    let count = before.tabs@.len() as int;
    lemma_wrapped_plain(cur, 1, count);
    lemma_wrapped_plain(cur, -1, count);
    lemma_wrapped_plain(cur, n as int, count);
    if splits::tab_moved(before, after, 1) {
        lemma_tab_moved_stands(before, after, 1);
    }
    if splits::tab_moved(before, after, -1) {
        lemma_tab_moved_stands(before, after, -1);
    }
    if splits::tab_moved(before, after, n as int) {
        lemma_tab_moved_stands(before, after, n as int);
    }
}

/// Closing a tab takes it out. The one on its right is current then, or the
/// last where it was the last; with the only tab the reader quits. Keeping one
/// tab only keeps the current one.
pub proof fn lemma_closing_tabs<D>(before: Workspace<D>, after: Workspace<D>)
    requires
        before.live(),
    ensures
        splits::tab_taken(before, after) ==> {
            let cur = before.current_tab as int;
            let n = before.tabs@.len() as int;
            &&& alike_tabs(after.tabs@, before.tabs@.remove(cur))
            &&& cur + 1 < n ==> after.current_tab == cur
            &&& cur + 1 == n && n > 1 ==> after.current_tab == n - 2
            &&& n == 1 ==> after.quit_requested && after.tabs@.len() == 0
            &&& n > 1 ==> after.quit_requested == before.quit_requested
        },
        splits::tab_alone(before, after) ==> {
            &&& after.tabs@.len() == 1
            &&& after.current_tab == 0
            &&& alike(after.tabs@[0], before.tab_now())
            &&& after.quit_requested == before.quit_requested
        },
{
    let cur = before.current_tab as int;
    let n = before.tabs@.len() as int;
    lemma_dirtied_alike(before.tab_now());
    if n > 1 {
        let rest = before.tabs@.remove(cur);
        lemma_repainted_alike(rest, splits::next_current(rest, cur));
    } else {
        assert(before.tabs@ =~= seq![before.tab_now()]);
        assert(before.tabs@.remove(cur) =~= Seq::<Tab>::empty());
    }
}

/// Closing the focused window takes it and no other out of the tab, and focus
/// goes to a window that was there; with a tab's only window the tab goes.
/// Keeping one window only keeps the focused one.
pub proof fn lemma_closing_windows<D>(before: Workspace<D>, after: Workspace<D>)
    requires
        before.live(),
    ensures
        splits::window_taken(before, after) ==> {
            let x = before.tab_now().tree.leaves();
            let i = before.focus_at();
            &&& x.len() > 1 ==> {
                &&& alike_windows(after.tab_now().tree.leaves(), x.remove(i))
                &&& after.tab_now().tree.has(after.tab_now().focused)
                &&& after.current_tab == before.current_tab
                &&& after.tabs@.len() == before.tabs@.len()
                &&& after.quit_requested == before.quit_requested
            }
            &&& x.len() == 1 ==> {
                &&& alike_tabs(after.tabs@, before.tabs@.remove(before.current_tab as int))
                &&& before.tabs@.len() == 1 ==> after.quit_requested
            }
        },
        splits::alone(before, after) ==> {
            &&& after.tab_now().tree.leaves().len() == 1
            &&& after.tab_now().focused == before.tab_now().focused
            &&& alike_windows(
                after.tab_now().tree.leaves(),
                seq![before.tab_now().tree.leaves()[before.focus_at()]],
            )
        },
{
    let t = before.tab_now();
    let x = t.tree.leaves();
    let i = before.focus_at();
    workspace::lemma_focus(before);
    assert(workspace::tab_ok(
        before.tabs@[before.current_tab as int],
        before.win_ids.upcoming,
        before.buf_ids.upcoming,
    ));
    t.tree.lemma_close_removes(t.focused);
    if splits::window_taken(before, after) {
        match t.tree.without(t.focused) {
            Some((u, f)) => {
                u.lemma_dirtied();
                if let WindowTree::Split { a, b, .. } = t.tree {
                    a.lemma_some_leaf();
                    b.lemma_some_leaf();
                }
                window::lemma_position(u.leaves(), f);
                window::lemma_position_same(u.dirtied().leaves(), u.leaves(), f);
            },
            None => {
                if before.tabs@.len() > 1 {
                    let rest = before.tabs@.remove(before.current_tab as int);
                    lemma_repainted_alike(
                        rest,
                        splits::next_current(rest, before.current_tab as int),
                    );
                } else {
                    assert(before.tabs@.remove(before.current_tab as int) =~= Seq::<Tab>::empty());
                }
            },
        }
    }
    let only = WindowTree::Leaf(before.focus_now());
    only.lemma_dirtied();
    assert(only.leaves() =~= seq![x[i]]);
}

/// `:q` closes the window, but quits where it is the only one left of all;
/// `:qa` quits at once.
pub proof fn lemma_quitting<
    D: PageMetrics,
    G: Fn(Real32, i32, u16) -> Real32,
    H: Fn(Real32, Real32) -> Real32,
>(
    before: Workspace<D>,
    after: Workspace<D>,
    nudged: &G,
    times: &H,
    caches: CacheSettings,
    r: Result<(), WorkspaceError>,
)
    requires
        before.live(),
    ensures
        dispatch::command_result(
            before,
            after,
            ParsedCommand::Quit,
            None,
            times,
            nudged,
            caches,
            r,
        ) ==> r is Ok && after.quit_requested && after.tabs == before.tabs,
        dispatch::command_result(
            before,
            after,
            ParsedCommand::CloseWindow,
            None,
            times,
            nudged,
            caches,
            r,
        ) ==> {
            &&& r is Ok
            &&& before.tabs@.len() == 1 && before.tab_now().tree.leaves().len() == 1
                ==> after.quit_requested && after.tabs == before.tabs
            &&& before.tabs@.len() == 1 && before.tab_now().tree.leaves().len() > 1
                ==> after.quit_requested == before.quit_requested
                && after.tab_now().tree.leaves().len() == before.tab_now().tree.leaves().len() - 1
            &&& before.tabs@.len() > 1 && before.tab_now().tree.leaves().len() == 1
                ==> after.tabs@.len() == before.tabs@.len() - 1
        },
{
    lemma_closing_windows(before, after);
    workspace::lemma_focus(before);
}

/// Growing a window's height nudges the nearest split of rows above it and
/// out of the rows of the screen, growing its width the nearest split of
/// columns out of the columns; the ratio stays between a tenth and nine
/// tenths. The windows stay as they are.
pub open spec fn regrown<D, G: Fn(Real32, i32, u16) -> Real32>(
    before: Workspace<D>,
    after: Workspace<D>,
    axis: Axis,
    cells: u16,
    n: i32,
    nudged: &G,
) -> bool {
    let t = before.tab_now().tree;
    let u = after.tab_now().tree;
    let id = before.tab_now().focused;
    &&& alike_windows(u.leaves(), t.leaves())
    &&& after.tab_now().focused == id
    &&& cells > 0 ==> (t.ratio_over(id, axis) matches Some(ratio) ==> exists|sum: Real32| #[trigger]
        call_ensures(nudged, (ratio, n, cells), sum) && {
            &&& 0x3DCC_CCCD <= sum.bits <= 0x3F66_6666 ==> u.ratio_over(id, axis) == Some(sum)
            &&& 0x3F66_6666 < sum.bits <= 0x7F80_0000 ==> u.ratio_over(id, axis) == Some(
                Real32 { bits: 0x3F66_6666 },
            )
            &&& sum.bits < 0x3DCC_CCCD ==> u.ratio_over(id, axis) == Some(
                Real32 { bits: 0x3DCC_CCCD },
            )
        })
    &&& forall|other: Axis|
        other != axis ==> #[trigger] u.ratio_over(id, other) == t.ratio_over(id, other)
}

/// Marks for a repaint do not matter to the ratios.
proof fn lemma_dirtied_ratio(t: WindowTree, id: WindowId, axis: Axis)
    ensures
        t.dirtied().ratio_over(id, axis) == t.ratio_over(id, axis),
        t.dirtied().has(id) == t.has(id),
    decreases t,
{
    t.lemma_dirtied();
    window::lemma_position_same(t.dirtied().leaves(), t.leaves(), id);
    if let WindowTree::Split { a, b, .. } = t {
        lemma_dirtied_ratio(*a, id, axis);
        lemma_dirtied_ratio(*b, id, axis);
    }
}

proof fn lemma_nudged_regrows<D, G: Fn(Real32, i32, u16) -> Real32>(
    before: Workspace<D>,
    after: Workspace<D>,
    axis: Axis,
    n: i32,
    nudged: &G,
)
    requires
        before.live(),
        splits::nudged_by(before, after, axis, n, nudged),
    ensures
        regrown(before, after, axis, window::extent(before.last_rect, axis), n, nudged),
{
    let t = before.tab_now().tree;
    let u = after.tab_now().tree;
    let id = before.tab_now().focused;
    let total = window::extent(before.last_rect, axis);
    lemma_dirtied_alike(before.tab_now());
    if total == 0 || t.ratio_over(id, axis) is None {
        lemma_dirtied_ratio(t, id, Axis::Horizontal);
        lemma_dirtied_ratio(t, id, Axis::Vertical);
    } else {
        let ratio = t.ratio_over(id, axis)->0;
        let sum = choose|sum: Real32| #[trigger]
            call_ensures(nudged, (ratio, n, total), sum) && after.tabs@ == before.tabs@.update(
                before.current_tab as int,
                workspace::dirtied(
                    Tab {
                        tree: t.with_ratio(
                            id,
                            axis,
                            sum.clamped(
                                Real32 { bits: crate::number::ONE_TENTH },
                                Real32 { bits: crate::number::NINE_TENTHS },
                            ),
                        ),
                        focused: id,
                    },
                ),
            );
        let value = sum.clamped(
            Real32 { bits: crate::number::ONE_TENTH },
            Real32 { bits: crate::number::NINE_TENTHS },
        );
        let w = t.with_ratio(id, axis, value);
        window_laws::lemma_ratio_reads_back(t, id, axis, value);
        t.lemma_ratios_keep_windows(id, axis, value);
        w.lemma_dirtied();
        lemma_dirtied_ratio(w, id, Axis::Horizontal);
        lemma_dirtied_ratio(w, id, Axis::Vertical);
        assert(u == w.dirtied());
        assert(call_ensures(nudged, (ratio, n, total), sum));
    }
}

/// What the keys and the commands for a window's height and width do: the
/// height is a matter of rows, the width of columns.
pub proof fn lemma_resizing<
    D: PageMetrics,
    F: Fn(u16, Real32) -> u16,
    G: Fn(Real32, i32, u16) -> Real32,
    H: Fn(Real32, Real32) -> Real32,
>(
    before: Workspace<D>,
    after: Workspace<D>,
    share: &F,
    nudged: &G,
    times: &H,
    caches: CacheSettings,
    r: Result<(), WorkspaceError>,
    n: i32,
)
    requires
        before.live(),
    ensures
        dispatch::op_result(before, after, WindowOp::ResizeVertical(n), share, nudged, r)
            || dispatch::command_result(
            before,
            after,
            ParsedCommand::Resize(n),
            None,
            times,
            nudged,
            caches,
            r,
        ) ==> regrown(before, after, Axis::Horizontal, before.last_rect.rows, n, nudged),
        dispatch::op_result(before, after, WindowOp::ResizeHorizontal(n), share, nudged, r)
            || dispatch::command_result(
            before,
            after,
            ParsedCommand::VResize(n),
            None,
            times,
            nudged,
            caches,
            r,
        ) ==> regrown(before, after, Axis::Vertical, before.last_rect.cols, n, nudged),
{
    if splits::nudged_by(before, after, Axis::Horizontal, n, nudged) {
        lemma_nudged_regrows(before, after, Axis::Horizontal, n, nudged);
    }
    if splits::nudged_by(before, after, Axis::Vertical, n, nudged) {
        lemma_nudged_regrows(before, after, Axis::Vertical, n, nudged);
    }
}

/// The open documents, in the order in which they were opened.
pub open spec fn documents<D>(ws: Workspace<D>) -> Seq<BufferId> {
    pool::document_ids(ws.pool.slots@)
}

/// The documents are listed by rising id.
proof fn lemma_documents_rise<D>(slots: Seq<Slot<D>>)
    requires
        forall|i: int, j: int|
            0 <= i < j < slots.len() ==> (#[trigger] slots[i]).id().0 < (
            #[trigger] slots[j]).id().0,
    ensures
        forall|i: int, j: int|
            0 <= i < j < pool::document_ids(slots).len() ==> (#[trigger] pool::document_ids(
                slots,
            )[i]).0 < (#[trigger] pool::document_ids(slots)[j]).0,
        forall|i: int|
            0 <= i < pool::document_ids(slots).len() ==> exists|k: int|
                0 <= k < slots.len() && (#[trigger] slots[k]).id() == #[trigger] pool::document_ids(
                    slots,
                )[i],
    decreases slots.len(),
{
    if slots.len() > 0 {
        let rest = slots.drop_last();
        let ids = pool::document_ids(slots);
        let fewer = pool::document_ids(rest);
        assert forall|i: int, j: int| 0 <= i < j < rest.len() implies (#[trigger] rest[i]).id().0
            < (#[trigger] rest[j]).id().0 by {
            assert(rest[i] == slots[i] && rest[j] == slots[j]);
        }
        lemma_documents_rise(rest);
        assert forall|i: int| 0 <= i < ids.len() implies exists|k: int|
            0 <= k < slots.len() && (#[trigger] slots[k]).id() == #[trigger] ids[i] by {
            if i < fewer.len() {
                let k = choose|k: int|
                    0 <= k < rest.len() && (#[trigger] rest[k]).id() == fewer[i];
                assert(slots[k].id() == ids[i]);
            } else {
                assert(slots[slots.len() - 1].id() == ids[i]);
            }
        }
        assert forall|i: int, j: int| 0 <= i < j < ids.len() implies (#[trigger] ids[i]).0 < (
        #[trigger] ids[j]).0 by {
            if j == fewer.len() {
                let k = choose|k: int|
                    0 <= k < rest.len() && (#[trigger] rest[k]).id() == fewer[i];
                assert(slots[k].id() == ids[i]);
                assert(slots[slots.len() - 1].id() == ids[j]);
                assert(k < slots.len() - 1);
            }
        }
    }
}

/// The focused window shows that buffer.
pub open spec fn now_shows<D>(after: Workspace<D>, id: BufferId) -> bool {
    after.focus_now().buffer == id
}

proof fn lemma_switched_shows<D: PageMetrics>(
    before: Workspace<D>,
    after: Workspace<D>,
    w: Window,
)
    requires
        before.live(),
        w.id == before.tab_now().focused,
        opening::switched(before, after, w),
    ensures
        after.focus_now().buffer == w.buffer,
        after.focus_now().alternate == w.alternate,
        after.tab_now().focused == before.tab_now().focused,
        after.tab_now().tree.leaves().len() == before.tab_now().tree.leaves().len(),
        forall|j: int|
            0 <= j < before.tab_now().tree.leaves().len() && j != before.focus_at()
                ==> #[trigger] after.tab_now().tree.leaves()[j]
                == before.tab_now().tree.leaves()[j],
{
    workspace::lemma_focus(before);
    let t = before.tab_now();
    let i = before.focus_at();
    let x = opening::seeded(after.pool.slots@, w);
    t.tree.lemma_with_leaf(i, x);
    let y = t.tree.with_leaf(i, x).leaves();
    assert(after.tab_now().tree.leaves() == t.tree.leaves().update(i, x));
    assert(workspace::tab_ok(
        before.tabs@[before.current_tab as int],
        before.win_ids.upcoming,
        before.buf_ids.upcoming,
    ));
    assert forall|j: int| 0 <= j < y.len() implies (#[trigger] y[j]).id == t.tree.leaves()[j].id by {}
    window::lemma_position_same(y, t.tree.leaves(), t.focused);
}

/// `:bnext` shows the document after the one that is shown, in the order in
/// which they were opened, and after the last the first; `:bprev` goes the
/// other way. `:b N` shows the document with that number, or the one at that
/// place in the list.
pub proof fn lemma_buffer_lines<
    D: PageMetrics,
    G: Fn(Real32, i32, u16) -> Real32,
    H: Fn(Real32, Real32) -> Real32,
>(
    before: Workspace<D>,
    after: Workspace<D>,
    cmd: ParsedCommand,
    k: int,
    nudged: &G,
    times: &H,
    caches: CacheSettings,
    r: Result<(), WorkspaceError>,
)
    requires
        before.live(),
        0 <= k < documents(before).len(),
        documents(before)[k] == before.focus_now().buffer,
        dispatch::command_result(before, after, cmd, None, times, nudged, caches, r),
    ensures
        ({
            let ids = documents(before);
            let n = ids.len() as int;
            &&& cmd == ParsedCommand::BufferNext ==> r is Ok && now_shows(
                after,
                if k + 1 < n {
                    ids[k + 1]
                } else {
                    ids[0]
                },
            )
            &&& cmd == ParsedCommand::BufferPrev ==> r is Ok && now_shows(
                after,
                if k > 0 {
                    ids[k - 1]
                } else {
                    ids[n - 1]
                },
            )
            &&& cmd matches ParsedCommand::Buffer(m) ==> {
                &&& forall|j: int|
                    0 <= j < n && (#[trigger] ids[j]).0 == m ==> r is Ok && now_shows(after, ids[j])
                &&& (forall|j: int| 0 <= j < n ==> (#[trigger] ids[j]).0 != m) ==> {
                    &&& 1 <= m <= n ==> r is Ok && now_shows(after, ids[m - 1])
                    &&& m > n ==> r == Err::<(), _>(WorkspaceError::NoSuchBuffer(m)) && after
                        == before
                }
            }
        }),
{
    let ids = documents(before);
    let n = ids.len() as int;
    let here = before.focus_now();
    workspace::lemma_focus(before);
    lemma_documents_rise(before.pool.slots@);
    opening::lemma_place(ids, here.buffer);
    assert(opening::place(ids, here.buffer) == Some(k)) by {
        let at = opening::place(ids, here.buffer)->0;
        if at != k {
            assert(ids[at].0 != ids[k].0);
        }
    }
    lemma_wrapped_plain(k, 1, n);
    lemma_wrapped_plain(k, -1, n);
    match cmd {
        ParsedCommand::BufferNext => {
            let id = ids[splits::wrapped(k, 1, n)];
            if here.buffer != id {
                lemma_switched_shows(before, after, here.loaded(id));
            }
        },
        ParsedCommand::BufferPrev => {
            let id = ids[splits::wrapped(k, -1, n)];
            if here.buffer != id {
                lemma_switched_shows(before, after, here.loaded(id));
            }
        },
        ParsedCommand::Buffer(m) => {
            if m <= u32::MAX {
                opening::lemma_place(ids, BufferId(m as u32));
            }
            if let Some(id) = opening::numbered(ids, m) {
                if here.buffer != id {
                    lemma_switched_shows(before, after, here.loaded(id));
                }
            }
        },
        _ => {},
    }
}

/// The alternate key shows the buffer that was shown before; pressed again it
/// goes back, since the two change places. Without one it says so and nothing
/// changes.
pub proof fn lemma_alternate_key<D: PageMetrics, F: Fn(u16, Real32) -> u16, G: Fn(
    Real32,
    i32,
    u16,
) -> Real32>(
    before: Workspace<D>,
    after: Workspace<D>,
    share: &F,
    nudged: &G,
    r: Result<(), WorkspaceError>,
)
    requires
        before.live(),
        dispatch::op_result(before, after, WindowOp::AlternateBuffer, share, nudged, r),
    ensures
        match before.focus_now().alternate {
            Some(b) => {
                &&& r is Ok
                &&& after.focus_now().buffer == b
                &&& after.focus_now().alternate == Some(before.focus_now().buffer)
            },
            None => r == Err::<(), _>(WorkspaceError::NoAlternate) && after == before,
        },
{
    workspace::lemma_focus(before);
    let here = before.focus_now();
    if let Some(b) = here.alternate {
        lemma_switched_shows(
            before,
            after,
            Window { alternate: Some(here.buffer), buffer: b, dirty: true, ..here },
        );
    }
}

/// `:split` without a file does what its key does, and so does `:vsplit`; a
/// new tab is the last one, is current, and shows the focused buffer.
pub proof fn lemma_split_lines_as_keys<
    D: PageMetrics,
    F: Fn(u16, Real32) -> u16,
    G: Fn(Real32, i32, u16) -> Real32,
    H: Fn(Real32, Real32) -> Real32,
>(
    before: Workspace<D>,
    after: Workspace<D>,
    share: &F,
    nudged: &G,
    times: &H,
    caches: CacheSettings,
    r: Result<(), WorkspaceError>,
)
    requires
        before.live(),
    ensures
        dispatch::command_result(
            before,
            after,
            ParsedCommand::Split { direction: SplitDirection::Horizontal, file: None },
            None,
            times,
            nudged,
            caches,
            r,
        ) == dispatch::op_result(before, after, WindowOp::SplitHorizontal, share, nudged, r),
        dispatch::command_result(
            before,
            after,
            ParsedCommand::Split { direction: SplitDirection::Vertical, file: None },
            None,
            times,
            nudged,
            caches,
            r,
        ) == dispatch::op_result(before, after, WindowOp::SplitVertical, share, nudged, r),
        dispatch::command_result(
            before,
            after,
            ParsedCommand::TabNew(None),
            None,
            times,
            nudged,
            caches,
            r,
        ) ==> {
            &&& r is Ok
            &&& after.tabs@.len() == before.tabs@.len() + 1
            &&& after.tabs@.drop_last() == before.tabs@
            &&& after.current_tab == before.tabs@.len()
            &&& after.tab_now().tree.leaves().len() == 1
            &&& after.tab_now().tree.leaves()[0].buffer == before.focus_now().buffer
            &&& after.tab_now().tree.leaves()[0].id == after.tab_now().focused
        },
{
}

/// One more window on a buffer counts it once more and one less once less; a
/// buffer stays as long as a window shows it and goes with the last.
pub proof fn lemma_counted<D>(slots: Seq<Slot<D>>, i: int)
    requires
        0 <= i < slots.len(),
        forall|j: int| 0 <= j < i ==> (#[trigger] slots[j]).id() != slots[i].id(),
    ensures
        ({
            let id = slots[i].id();
            let more = pool::acquired(slots, id);
            let less = pool::released(slots, id);
            &&& slots[i].refs < usize::MAX ==> {
                &&& more.len() == slots.len()
                &&& more[i].refs == slots[i].refs + 1
                &&& more[i].buf == slots[i].buf
                &&& pool::released(more, id) == slots || slots[i].refs == 0
            }
            &&& slots[i].refs > 1 ==> {
                &&& less.len() == slots.len()
                &&& less[i].refs == slots[i].refs - 1
                &&& less[i].buf == slots[i].buf
                &&& pool::leaving(slots, id) is None
            }
            &&& slots[i].refs == 1 ==> {
                &&& less == slots.remove(i)
                &&& pool::leaving(slots, id) == Some(slots[i].buf)
            }
        }),
{
    let id = slots[i].id();
    let more = pool::acquired(slots, id);
    pool::lemma_slot_at(slots, id);
    assert(pool::slot_at(slots, id) == Some(i));
    if slots[i].refs < usize::MAX {
        assert forall|j: int| 0 <= j < i implies (#[trigger] more[j]).id() != id by {
            assert(more[j] == slots[j]);
        }
        assert(more[i].id() == id);
        pool::lemma_slot_at(more, id);
        assert(pool::slot_at(more, id) == Some(i));
        if slots[i].refs > 0 {
            assert(pool::released(more, id) =~= slots);
        }
    }
}

/// What a document's state remembers of a view is what a window that opens it
/// shows: the page, the place on it, the zoom, the rotation, night mode, the
/// resolution and the quality. The screen is that of the window.
pub proof fn lemma_state_brings_back_the_view<D: PageMetrics>(
    p: PdfBuffer<D>,
    v: Viewport,
    template: Viewport,
    caches: CacheSettings,
)
    requires
        v.page_idx < p.pdf.pages(),
    ensures
        ({
            let st = crate::reading::synced(p.state, v, caches);
            let now = opening::view_of(PdfBuffer { state: st, ..p }, template);
            &&& now == (Viewport {
                screen_w: template.screen_w,
                screen_h: template.screen_h,
                ..v
            })
            &&& st.cache_enabled == caches.enabled
            &&& st.cache_size == Some(caches.pages)
            &&& st.ecache_size == Some(caches.frames)
            &&& st.bookmarks == p.state.bookmarks
        }),
{
}

/// A state that names a page after the last shows the last.
pub proof fn lemma_state_past_the_end<D: PageMetrics>(p: PdfBuffer<D>, template: Viewport)
    ensures
        p.state.last_page >= p.pdf.pages() > 0 ==> opening::view_of(p, template).page_idx
            == p.pdf.pages() - 1,
        p.pdf.pages() == 0 ==> opening::view_of(p, template).page_idx == 0,
{
}

/// A command that names a file does nothing until what the file holds is handed
/// in; then it opens the file, beside the focused window, in a new tab or in
/// the window itself.
pub proof fn lemma_file_commands<
    D: PageMetrics,
    G: Fn(Real32, i32, u16) -> Real32,
    H: Fn(Real32, Real32) -> Real32,
>(
    before: Workspace<D>,
    after: Workspace<D>,
    path: String,
    direction: SplitDirection,
    source: Source<D>,
    nudged: &G,
    times: &H,
    caches: CacheSettings,
    r: Result<(), WorkspaceError>,
)
    requires
        before.live(),
    ensures
        ({
            let split = ParsedCommand::Split { direction, file: Some(path) };
            let tab = ParsedCommand::TabNew(Some(path));
            let edit = ParsedCommand::Edit(path);
            &&& forall|cmd: ParsedCommand|
                (cmd == split || cmd == tab || cmd == edit) && #[trigger] dispatch::command_result(
                    before,
                    after,
                    cmd,
                    None,
                    times,
                    nudged,
                    caches,
                    r,
                ) ==> r == Err::<(), _>(WorkspaceError::NotSupplied) && after == before
            &&& opening::can_open(before, source) && dispatch::command_result(
                before,
                after,
                split,
                Some(source),
                times,
                nudged,
                caches,
                r,
            ) ==> {
                &&& r is Ok
                &&& after.tabs@.len() == before.tabs@.len()
                &&& after.tab_now().tree.leaves().len() == before.tab_now().tree.leaves().len() + 1
                &&& after.tab_now().focused == WindowId(before.win_ids.upcoming)
            }
            &&& opening::can_open(before, source) && dispatch::command_result(
                before,
                after,
                tab,
                Some(source),
                times,
                nudged,
                caches,
                r,
            ) ==> r is Ok && after.tabs@.len() == before.tabs@.len() + 1 && after.current_tab
                == before.tabs@.len()
            &&& source is Pdf && !opening::can_open(before, source) && dispatch::command_result(
                before,
                after,
                edit,
                Some(source),
                times,
                nudged,
                caches,
                r,
            ) ==> r is Err && after.tabs == before.tabs && after.pool == before.pool
        }),
{
    let t = before.tab_now();
    workspace::lemma_focus(before);
    let axis = opening::axis_for(direction);
    let id = opening::opened_id(before, source);
    let here = before.focus_now();
    let v = if id == here.buffer {
        here.viewport
    } else {
        opening::fresh_view(after.pool.slots@, id, here.viewport)
    };
    let w = Window::fresh(WindowId(before.win_ids.upcoming), id, v);
    t.tree.lemma_split_inserts(t.focused, axis, w);
    t.tree.split_at(t.focused, axis, w)->0.lemma_dirtied();
}

/// A file that is open already is shown again, and no second time kept; one
/// that is not is added under a new id.
pub proof fn lemma_opened_once<D>(
    ws: Workspace<D>,
    key: String,
    loaded: Result<crate::workspace::LoadedPdf<D>, String>,
    slots: Seq<Slot<D>>,
    upcoming: u32,
    i: int,
)
    requires
        opening::opened(ws, Source::Pdf { key, loaded }, slots, upcoming),
        0 <= i < ws.pool.slots@.len(),
        ws.pool.slots@[i].is_at(key@),
        forall|j: int| 0 <= j < i ==> !(#[trigger] ws.pool.slots@[j]).is_at(key@),
    ensures
        slots.len() == ws.pool.slots@.len(),
        upcoming == ws.buf_ids.upcoming,
        opening::opened_id(ws, Source::Pdf { key, loaded }) == ws.pool.slots@[i].id(),
{
    pool::lemma_key_at(ws.pool.slots@, key@);
    assert(pool::key_at(ws.pool.slots@, key@) == Some(i));
    pool::lemma_slot_at(ws.pool.slots@, ws.pool.slots@[i].id());
}

/// A file that is not open yet is added to the pool under the next id, with one
/// window on it.
pub proof fn lemma_opened_new<D>(
    ws: Workspace<D>,
    key: String,
    loaded: Result<crate::workspace::LoadedPdf<D>, String>,
    slots: Seq<Slot<D>>,
    upcoming: u32,
)
    requires
        opening::opened(ws, Source::Pdf { key, loaded }, slots, upcoming),
        forall|j: int|
            0 <= j < ws.pool.slots@.len() ==> !(#[trigger] ws.pool.slots@[j]).is_at(key@),
    ensures
        loaded is Ok,
        slots.len() == ws.pool.slots@.len() + 1,
        upcoming == ws.buf_ids.upcoming + 1,
        opening::opened_id(ws, Source::Pdf { key, loaded }) == BufferId(ws.buf_ids.upcoming),
        slots.last().refs == 1,
        slots.last().is_at(key@),
        slots.last().id() == BufferId(ws.buf_ids.upcoming),
        forall|j: int| 0 <= j < ws.pool.slots@.len() ==> #[trigger] slots[j] == ws.pool.slots@[j],
{
    pool::lemma_key_at(ws.pool.slots@, key@);
    assert forall|j: int| 0 <= j < ws.pool.slots@.len() implies #[trigger] slots[j]
        == ws.pool.slots@[j] by {
        assert(slots.drop_last()[j] == ws.pool.slots@[j]);
    }
}

/// A directory that is browsed is added to the pool under the next id, with its
/// first entry selected.
pub proof fn lemma_browsed_new<D>(
    ws: Workspace<D>,
    cwd: Seq<char>,
    items: Seq<crate::explorer::DirItem>,
    slots: Seq<Slot<D>>,
    upcoming: u32,
)
    requires
        opening::browsed(ws, cwd, items, slots, upcoming),
    ensures
        slots.len() == ws.pool.slots@.len() + 1,
        upcoming == ws.buf_ids.upcoming + 1,
        slots.last().refs == 1 && slots.last().key is None,
        slots.last().buf matches Buffer::Explorer(e) && e.selected == 0 && e.cwd@ == cwd,
{
}

} // verus!
