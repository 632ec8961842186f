//! What the split tree promises, said in cells and in the order of windows.
use vstd::prelude::*;

use crate::buffer::BufferId;
use crate::number::Real32;
use crate::window::{self, Axis, CellRect, Direction, Window, WindowId, WindowTree};

verus! {

/// `r` lies wholly on one side of `f`.
pub open spec fn lies(f: CellRect, dir: Direction, r: CellRect) -> bool {
    match dir {
        Direction::Down => r.row >= f.row + f.rows,
        Direction::Up => r.row + r.rows <= f.row,
        Direction::Right => r.col >= f.col + f.cols,
        Direction::Left => r.col + r.cols <= f.col,
    }
}

/// Some row holds cells of both.
pub open spec fn level(f: CellRect, r: CellRect) -> bool {
    &&& f.rows > 0 && r.rows > 0
    &&& f.row < r.row + r.rows
    &&& r.row < f.row + f.rows
}

/// Some column holds cells of both.
pub open spec fn stacked(f: CellRect, r: CellRect) -> bool {
    &&& f.cols > 0 && r.cols > 0
    &&& f.col < r.col + r.cols
    &&& r.col < f.col + f.cols
}

/// Going straight in a direction from `f` can meet `r`.
pub open spec fn faces(f: CellRect, dir: Direction, r: CellRect) -> bool {
    &&& lies(f, dir, r)
    &&& match dir {
        Direction::Up | Direction::Down => stacked(f, r),
        Direction::Left | Direction::Right => level(f, r),
    }
}

/// The cells between the two edges that face each other.
pub open spec fn away(f: CellRect, dir: Direction, r: CellRect) -> int {
    match dir {
        Direction::Down => r.row - (f.row + f.rows),
        Direction::Up => f.row - (r.row + r.rows),
        Direction::Right => r.col - (f.col + f.cols),
        Direction::Left => f.col - (r.col + r.cols),
    }
}

pub open spec fn least(a: int, b: int) -> int {
    if a < b {
        a
    } else {
        b
    }
}

pub open spec fn most(a: int, b: int) -> int {
    if a < b {
        b
    } else {
        a
    }
}

/// The cells along which two rectangles that face each other do so.
pub open spec fn along(f: CellRect, dir: Direction, r: CellRect) -> int {
    match dir {
        Direction::Up | Direction::Down => least(f.col + f.cols, r.col + r.cols) - most(
            f.col as int,
            r.col as int,
        ),
        Direction::Left | Direction::Right => least(f.row + f.rows, r.row + r.rows) - most(
            f.row as int,
            r.row as int,
        ),
    }
}

/// The way back.
pub open spec fn opposite(dir: Direction) -> Direction {
    match dir {
        Direction::Down => Direction::Up,
        Direction::Up => Direction::Down,
        Direction::Right => Direction::Left,
        Direction::Left => Direction::Right,
    }
}

/// One rectangle is beside another where it faces it, by as many cells as lie
/// between them and along as many as they share; and seen from the other the
/// first lies the opposite way.
pub proof fn lemma_beside(f: CellRect, dir: Direction, r: CellRect)
    requires
        f.on_grid(),
        r.on_grid(),
    ensures
        window::beside(f, dir, r) is Some <==> faces(f, dir, r),
        faces(f, dir, r) ==> window::beside(f, dir, r) == Some(
            (away(f, dir, r), along(f, dir, r)),
        ),
        window::beside(r, opposite(dir), f) == window::beside(f, dir, r),
{
}

/// Every rectangle of a layout ends within the range of cell coordinates.
pub open spec fn all_on_grid(layout: Seq<(WindowId, CellRect)>) -> bool {
    forall|i: int| 0 <= i < layout.len() ==> (#[trigger] layout[i]).1.on_grid()
}

/// The neighbour in a direction is another window that lies on that side and
/// faces the focused one. None that does so is nearer, and of those as near
/// none faces it along more cells. Where there is no neighbour, no window lies
/// there and faces it.
pub proof fn lemma_neighbour_lies_there(
    layout: Seq<(WindowId, CellRect)>,
    k: int,
    dir: Direction,
    r: Option<WindowId>,
)
    requires
        all_on_grid(layout),
        0 <= k < layout.len(),
        forall|j: int| 0 <= j < k ==> (#[trigger] layout[j]).0 != layout[k].0,
        window::is_neighbour(layout, layout[k].0, dir, r),
    ensures
        match r {
            Some(id) => exists|i: int|
                {
                    &&& 0 <= i < layout.len()
                    &&& (#[trigger] layout[i]).0 == id
                    &&& id != layout[k].0
                    &&& faces(layout[k].1, dir, layout[i].1)
                    &&& forall|j: int|
                        {
                            &&& 0 <= j < layout.len()
                            &&& (#[trigger] layout[j]).0 != layout[k].0
                            &&& faces(layout[k].1, dir, layout[j].1)
                        } ==> {
                            let f = layout[k].1;
                            &&& away(f, dir, layout[i].1) <= away(f, dir, layout[j].1)
                            &&& away(f, dir, layout[i].1) == away(f, dir, layout[j].1) ==> along(
                                f,
                                dir,
                                layout[j].1,
                            ) <= along(f, dir, layout[i].1)
                        }
                },
            None => forall|j: int|
                0 <= j < layout.len() && (#[trigger] layout[j]).0 != layout[k].0 ==> !faces(
                    layout[k].1,
                    dir,
                    layout[j].1,
                ),
        },
{
    let focused = layout[k].0;
    let f = layout[k].1;
    window::lemma_entry(layout, focused);
    assert(window::entry(layout, focused) == Some(k));
    match r {
        Some(id) => {
            let i = choose|i: int| #[trigger]
                window::nearest(layout, focused, f, dir, i) && id == layout[i].0;
            assert(layout[i].1.on_grid());
            lemma_beside(f, dir, layout[i].1);
            assert forall|j: int|
                {
                    &&& 0 <= j < layout.len()
                    &&& (#[trigger] layout[j]).0 != focused
                    &&& faces(f, dir, layout[j].1)
                } implies {
                &&& away(f, dir, layout[i].1) <= away(f, dir, layout[j].1)
                &&& away(f, dir, layout[i].1) == away(f, dir, layout[j].1) ==> along(
                    f,
                    dir,
                    layout[j].1,
                ) <= along(f, dir, layout[i].1)
            } by {
                lemma_beside(f, dir, layout[j].1);
                assert(window::candidate(layout, focused, f, dir, j));
            }
            assert(layout[i].0 == id);
        },
        None => {
            assert forall|j: int|
                0 <= j < layout.len() && (#[trigger] layout[j]).0 != focused implies !faces(
                f,
                dir,
                layout[j].1,
            ) by {
                lemma_beside(f, dir, layout[j].1);
                assert(!window::candidate(layout, focused, f, dir, j));
            }
        },
    }
}

/// One layout, one window and one direction have one neighbour at most.
pub proof fn lemma_neighbour_is_one(
    layout: Seq<(WindowId, CellRect)>,
    focused: WindowId,
    dir: Direction,
    r: Option<WindowId>,
    s: Option<WindowId>,
)
    requires
        window::is_neighbour(layout, focused, dir, r),
        window::is_neighbour(layout, focused, dir, s),
    ensures
        r == s,
{
    if let Some(k) = window::entry(layout, focused) {
        let f = layout[k].1;
        if let Some(id) = r {
            let i = choose|i: int| #[trigger]
                window::nearest(layout, focused, f, dir, i) && id == layout[i].0;
            assert(window::candidate(layout, focused, f, dir, i));
            if let Some(other) = s {
                let j = choose|j: int| #[trigger]
                    window::nearest(layout, focused, f, dir, j) && other == layout[j].0;
                assert(window::candidate(layout, focused, f, dir, j));
            }
        }
        if let Some(other) = s {
            let j = choose|j: int| #[trigger]
                window::nearest(layout, focused, f, dir, j) && other == layout[j].0;
            assert(window::candidate(layout, focused, f, dir, j));
        }
    }
}

/// The neighbour of the only window with that id in a layout of two.
proof fn lemma_neighbour_of_two(
    out: Seq<(WindowId, CellRect)>,
    k: int,
    dir: Direction,
)
    requires
        out.len() == 2,
        all_on_grid(out),
        out[0].0 != out[1].0,
        k == 0 || k == 1,
    ensures
        forall|r: Option<WindowId>| #[trigger]
            window::is_neighbour(out, out[k].0, dir, r) <==> r == (if faces(
                out[k].1,
                dir,
                out[1 - k].1,
            ) {
                Some(out[1 - k].0)
            } else {
                None
            }),
{
    let focused = out[k].0;
    let f = out[k].1;
    let g = out[1 - k].1;
    assert(f.on_grid() && g.on_grid());
    lemma_beside(f, dir, g);
    window::lemma_entry(out, focused);
    assert(window::entry(out, focused) == Some(k));
    assert forall|j: int| #[trigger] window::candidate(out, focused, f, dir, j) implies j == 1
        - k by {}
    if faces(f, dir, g) {
        assert(window::nearest(out, focused, f, dir, 1 - k)) by {
            assert(window::candidate(out, focused, f, dir, 1 - k));
        }
        assert forall|r: Option<WindowId>|
            #[trigger] window::is_neighbour(out, focused, dir, r) implies r == Some(
            out[1 - k].0,
        ) by {
            lemma_neighbour_is_one(out, focused, dir, r, Some(out[1 - k].0));
        }
    } else {
        assert forall|j: int| !#[trigger] window::candidate(out, focused, f, dir, j) by {}
        assert(window::is_neighbour(out, focused, dir, None));
        assert forall|r: Option<WindowId>|
            #[trigger] window::is_neighbour(out, focused, dir, r) implies r is None by {
            lemma_neighbour_is_one(out, focused, dir, r, None);
        }
    }
}

/// The only window of a rectangle is split, and both halves are laid out.
pub open spec fn halved<F: Fn(u16, Real32) -> u16>(
    w: Window,
    axis: Axis,
    other: Window,
    rect: CellRect,
    share: &F,
    out: Seq<(WindowId, CellRect)>,
) -> bool {
    &&& WindowTree::Leaf(w).split_at(w.id, axis, other) matches Some(t)
    &&& t.laid_out(rect, share, out)
}

/// Splitting the only window along the horizontal axis leaves it on top, over
/// the full width, and the new window below it. Down leads from the one to the
/// other and up back again; neither has a neighbour on any other side.
pub proof fn lemma_horizontal_split<F: Fn(u16, Real32) -> u16>(
    w: Window,
    other: Window,
    rect: CellRect,
    share: &F,
    out: Seq<(WindowId, CellRect)>,
)
    requires
        w.id != other.id,
        rect.on_grid(),
        rect.cols >= 1,
        rect.rows >= 2,
        halved(w, Axis::Horizontal, other, rect, share, out),
    ensures
        out.len() == 2,
        out[0].0 == w.id && out[1].0 == other.id,
        out[0].1.col == rect.col && out[1].1.col == rect.col,
        out[0].1.cols == rect.cols && out[1].1.cols == rect.cols,
        out[0].1.row == rect.row,
        out[0].1.rows >= 1 && out[1].1.rows >= 1,
        out[1].1.row == out[0].1.row + out[0].1.rows,
        out[1].1.row + out[1].1.rows == rect.row + rect.rows,
        forall|r: Option<WindowId>| #[trigger]
            window::is_neighbour(out, w.id, Direction::Down, r) <==> r == Some(other.id),
        forall|r: Option<WindowId>| #[trigger]
            window::is_neighbour(out, other.id, Direction::Up, r) <==> r == Some(w.id),
        forall|r: Option<WindowId>, dir: Direction|
            dir != Direction::Down ==> (#[trigger] window::is_neighbour(out, w.id, dir, r) <==> r
                is None),
        forall|r: Option<WindowId>, dir: Direction|
            dir != Direction::Up ==> (#[trigger] window::is_neighbour(out, other.id, dir, r)
                <==> r is None),
{
    lemma_halves(w, Axis::Horizontal, other, rect, share, out);
    let f = out[0].1;
    let g = out[1].1;
    assert(faces(f, Direction::Down, g) && faces(g, Direction::Up, f));
    assert forall|dir: Direction| dir != Direction::Down implies !faces(f, dir, g) by {}
    assert forall|dir: Direction| dir != Direction::Up implies !faces(g, dir, f) by {}
    assert forall|r: Option<WindowId>, dir: Direction|
        dir != Direction::Down implies (#[trigger] window::is_neighbour(out, w.id, dir, r) <==> r
        is None) by {
        lemma_neighbour_of_two(out, 0, dir);
    }
    assert forall|r: Option<WindowId>, dir: Direction|
        dir != Direction::Up implies (#[trigger] window::is_neighbour(out, other.id, dir, r) <==> r
        is None) by {
        lemma_neighbour_of_two(out, 1, dir);
    }
    lemma_neighbour_of_two(out, 0, Direction::Down);
    lemma_neighbour_of_two(out, 1, Direction::Up);
}

/// Splitting the only window along the vertical axis leaves it on the left,
/// over the full height, and the new window on its right. Right leads from the
/// one to the other and left back again; neither has a neighbour on any other
/// side.
pub proof fn lemma_vertical_split<F: Fn(u16, Real32) -> u16>(
    w: Window,
    other: Window,
    rect: CellRect,
    share: &F,
    out: Seq<(WindowId, CellRect)>,
)
    requires
        w.id != other.id,
        rect.on_grid(),
        rect.cols >= 2,
        rect.rows >= 1,
        halved(w, Axis::Vertical, other, rect, share, out),
    ensures
        out.len() == 2,
        out[0].0 == w.id && out[1].0 == other.id,
        out[0].1.row == rect.row && out[1].1.row == rect.row,
        out[0].1.rows == rect.rows && out[1].1.rows == rect.rows,
        out[0].1.col == rect.col,
        out[0].1.cols >= 1 && out[1].1.cols >= 1,
        out[1].1.col == out[0].1.col + out[0].1.cols,
        out[1].1.col + out[1].1.cols == rect.col + rect.cols,
        forall|r: Option<WindowId>| #[trigger]
            window::is_neighbour(out, w.id, Direction::Right, r) <==> r == Some(other.id),
        forall|r: Option<WindowId>| #[trigger]
            window::is_neighbour(out, other.id, Direction::Left, r) <==> r == Some(w.id),
        forall|r: Option<WindowId>, dir: Direction|
            dir != Direction::Right ==> (#[trigger] window::is_neighbour(out, w.id, dir, r) <==> r
                is None),
        forall|r: Option<WindowId>, dir: Direction|
            dir != Direction::Left ==> (#[trigger] window::is_neighbour(out, other.id, dir, r)
                <==> r is None),
{
    lemma_halves(w, Axis::Vertical, other, rect, share, out);
    let f = out[0].1;
    let g = out[1].1;
    assert(faces(f, Direction::Right, g) && faces(g, Direction::Left, f));
    assert forall|dir: Direction| dir != Direction::Right implies !faces(f, dir, g) by {}
    assert forall|dir: Direction| dir != Direction::Left implies !faces(g, dir, f) by {}
    assert forall|r: Option<WindowId>, dir: Direction|
        dir != Direction::Right implies (#[trigger] window::is_neighbour(out, w.id, dir, r) <==> r
        is None) by {
        lemma_neighbour_of_two(out, 0, dir);
    }
    assert forall|r: Option<WindowId>, dir: Direction|
        dir != Direction::Left implies (#[trigger] window::is_neighbour(out, other.id, dir, r)
        <==> r is None) by {
        lemma_neighbour_of_two(out, 1, dir);
    }
    lemma_neighbour_of_two(out, 0, Direction::Right);
    lemma_neighbour_of_two(out, 1, Direction::Left);
}

/// The first of two windows gets the share that one half comes to, but leaves
/// a cell for each; the second gets the rest.
proof fn lemma_halves<F: Fn(u16, Real32) -> u16>(
    w: Window,
    axis: Axis,
    other: Window,
    rect: CellRect,
    share: &F,
    out: Seq<(WindowId, CellRect)>,
)
    requires
        rect.on_grid(),
        !rect.empty(),
        window::extent(rect, axis) >= 2,
        halved(w, axis, other, rect, share, out),
    ensures
        out.len() == 2,
        out[0].0 == w.id && out[1].0 == other.id,
        exists|raw: u16|
            {
                let n = window::cut(window::extent(rect, axis), raw);
                &&& #[trigger] call_ensures(
                    share,
                    (
                        window::extent(rect, axis),
                        window::bounded_ratio(Real32 { bits: 0x3F00_0000 }),
                    ),
                    raw,
                )
                &&& out[0].1 == window::before_cut(rect, axis, n)
                &&& out[1].1 == window::after_cut(rect, axis, n)
            },
{
    let t = WindowTree::Leaf(w).split_at(w.id, axis, other)->0;
    let ratio = Real32 { bits: 0x3F00_0000 };
    reveal_with_fuel(WindowTree::laid_out, 2);
    let (raw, k) = choose|raw: u16, k: int|
        {
            let n = window::cut(window::extent(rect, axis), raw);
            &&& #[trigger] call_ensures(
                share,
                (window::extent(rect, axis), window::bounded_ratio(ratio)),
                raw,
            )
            &&& 0 <= k <= out.len()
            &&& WindowTree::Leaf(w).laid_out(
                window::before_cut(rect, axis, n),
                share,
                #[trigger] out.take(k),
            )
            &&& WindowTree::Leaf(other).laid_out(
                window::after_cut(rect, axis, n),
                share,
                out.skip(k),
            )
        };
    let n = window::cut(window::extent(rect, axis), raw);
    let x = out.take(k);
    let y = out.skip(k);
    assert(x.len() == 1 && y.len() == 1);
    assert(out[0] == x[0] && out[1] == y[0]);
}

/// Only windows of the tree are laid out.
pub(crate) proof fn lemma_layout_is_of_tree<F: Fn(u16, Real32) -> u16>(
    t: WindowTree,
    rect: CellRect,
    share: &F,
    out: Seq<(WindowId, CellRect)>,
)
    requires
        rect.on_grid(),
        t.laid_out(rect, share, out),
    ensures
        forall|i: int| 0 <= i < out.len() ==> t.has((#[trigger] out[i]).0),
    decreases t,
{
    if !rect.empty() {
        match t {
            WindowTree::Leaf(w) => {
                window::lemma_position(t.leaves(), w.id);
                assert(t.leaves()[0].id == w.id);
            },
            WindowTree::Split { axis, a, b, ratio } => {
                let (raw, k) = choose|raw: u16, k: int|
                    {
                        let n = window::cut(window::extent(rect, axis), raw);
                        &&& #[trigger] call_ensures(
                            share,
                            (window::extent(rect, axis), window::bounded_ratio(ratio)),
                            raw,
                        )
                        &&& 0 <= k <= out.len()
                        &&& a.laid_out(
                            window::before_cut(rect, axis, n),
                            share,
                            #[trigger] out.take(k),
                        )
                        &&& b.laid_out(window::after_cut(rect, axis, n), share, out.skip(k))
                    };
                let n = window::cut(window::extent(rect, axis), raw);
                lemma_layout_is_of_tree(*a, window::before_cut(rect, axis, n), share, out.take(k));
                lemma_layout_is_of_tree(*b, window::after_cut(rect, axis, n), share, out.skip(k));
                assert forall|i: int| 0 <= i < out.len() implies t.has((#[trigger] out[i]).0) by {
                    window::lemma_position_concat(a.leaves(), b.leaves(), out[i].0);
                    if i < k {
                        assert(out[i] == out.take(k)[i]);
                    } else {
                        assert(out[i] == out.skip(k)[i - k]);
                    }
                }
            },
        }
    }
}

/// In a split along the horizontal axis every window of the first child lies
/// above every window of the second, along the vertical axis to the left of
/// it.
pub proof fn lemma_first_child_comes_first<F: Fn(u16, Real32) -> u16>(
    t: WindowTree,
    rect: CellRect,
    share: &F,
    out: Seq<(WindowId, CellRect)>,
    i: int,
    j: int,
)
    requires
        rect.on_grid(),
        window::distinct(t.leaves()),
        t.laid_out(rect, share, out),
        0 <= i < out.len(),
        0 <= j < out.len(),
    ensures
        t matches WindowTree::Split { axis, a, b, .. } ==> {
            &&& a.has(out[i].0) != b.has(out[i].0)
            &&& a.has(out[i].0) && b.has(out[j].0) ==> match axis {
                Axis::Horizontal => out[i].1.row + out[i].1.rows <= out[j].1.row,
                Axis::Vertical => out[i].1.col + out[i].1.cols <= out[j].1.col,
            }
        },
{
    if let WindowTree::Split { axis, a, b, ratio } = t {
        let (raw, k) = choose|raw: u16, k: int|
            {
                let n = window::cut(window::extent(rect, axis), raw);
                &&& #[trigger] call_ensures(
                    share,
                    (window::extent(rect, axis), window::bounded_ratio(ratio)),
                    raw,
                )
                &&& 0 <= k <= out.len()
                &&& a.laid_out(window::before_cut(rect, axis, n), share, #[trigger] out.take(k))
                &&& b.laid_out(window::after_cut(rect, axis, n), share, out.skip(k))
            };
        let n = window::cut(window::extent(rect, axis), raw);
        let first = window::before_cut(rect, axis, n);
        let second = window::after_cut(rect, axis, n);
        lemma_layout_is_of_tree(*a, first, share, out.take(k));
        lemma_layout_is_of_tree(*b, second, share, out.skip(k));
        a.lemma_layout_tiles(first, share, out.take(k));
        b.lemma_layout_tiles(second, share, out.skip(k));
        lemma_not_in_both(*a, *b, out[i].0);
        lemma_not_in_both(*a, *b, out[j].0);
        if i < k {
            assert(out[i] == out.take(k)[i]);
            let r = out.take(k)[i].1;
            assert(r.covers(r.col + r.cols - 1, r.row + r.rows - 1));
        } else {
            assert(out[i] == out.skip(k)[i - k]);
        }
        if j < k {
            assert(out[j] == out.take(k)[j]);
        } else {
            assert(out[j] == out.skip(k)[j - k]);
            let r = out.skip(k)[j - k].1;
            assert(r.covers(r.col as int, r.row as int));
        }
    }
}

/// No window is in both children of a split.
pub(crate) proof fn lemma_not_in_both(a: WindowTree, b: WindowTree, id: WindowId)
    requires
        window::distinct(a.leaves() + b.leaves()),
    ensures
        !(a.has(id) && b.has(id)),
{
    let x = a.leaves();
    let y = b.leaves();
    window::lemma_position(x, id);
    window::lemma_position(y, id);
    if a.has(id) && b.has(id) {
        let i = window::position(x, id)->0;
        let j = window::position(y, id)->0;
        assert((x + y)[i] == x[i] && (x + y)[x.len() + j] == y[j]);
    }
}

/// Stepping focus goes to the next window in tree order, after the last one
/// to the first; the other way to the one before, from the first to the last.
pub proof fn lemma_cycle_order(t: WindowTree, i: int)
    requires
        window::distinct(t.leaves()),
        0 <= i < t.leaves().len(),
    ensures
        i + 1 < t.leaves().len() ==> {
            &&& t.cycled(t.leaves()[i].id, false) == Some(t.leaves()[i + 1].id)
            &&& t.cycled(t.leaves()[i + 1].id, true) == Some(t.leaves()[i].id)
        },
        i + 1 == t.leaves().len() ==> {
            &&& t.cycled(t.leaves()[i].id, false) == Some(t.leaves()[0].id)
            &&& t.cycled(t.leaves()[0].id, true) == Some(t.leaves()[i].id)
        },
{
    let n = t.leaves().len() as int;
    window::lemma_position(t.leaves(), t.leaves()[i].id);
    window::lemma_position(t.leaves(), t.leaves()[0].id);
    if i + 1 < n {
        window::lemma_position(t.leaves(), t.leaves()[i + 1].id);
        vstd::arithmetic::div_mod::lemma_small_mod((i + 1) as nat, n as nat);
        vstd::arithmetic::div_mod::lemma_mod_add_multiples_vanish(i, n);
        vstd::arithmetic::div_mod::lemma_small_mod(i as nat, n as nat);
    } else {
        vstd::arithmetic::div_mod::lemma_mod_self_0(n);
        vstd::arithmetic::div_mod::lemma_small_mod((n - 1) as nat, n as nat);
    }
}

/// Closing one of two windows leaves the other, with focus.
pub proof fn lemma_close_one_of_two(x: Window, y: Window, axis: Axis, ratio: Real32)
    requires
        x.id != y.id,
    ensures
        ({
            let t = WindowTree::Split {
                axis,
                a: Box::new(WindowTree::Leaf(x)),
                b: Box::new(WindowTree::Leaf(y)),
                ratio,
            };
            &&& t.without(x.id) == Some((WindowTree::Leaf(y), y.id))
            &&& t.without(y.id) == Some((WindowTree::Leaf(x), x.id))
        }),
{
}

/// Closing the first child of a split moves focus to the next window in tree
/// order. Closing the second moves it to a window before it. Either way every
/// other split keeps its axis and its ratio where it stays.
pub proof fn lemma_close_focuses_sibling(t: WindowTree, id: WindowId)
    requires
        window::distinct(t.leaves()),
        t is Split,
        t.has(id),
    ensures
        t.without(id) matches Some((rest, focus)) && {
            let i = window::position(t.leaves(), id)->0;
            let f = window::position(rest.leaves(), focus)->0;
            &&& rest.leaves() == t.leaves().remove(i)
            &&& 0 <= f < rest.leaves().len() && rest.leaves()[f].id == focus
            &&& f <= i
            &&& f == i ==> rest.leaves()[f] == t.leaves()[i + 1]
        },
    decreases t,
{
    t.lemma_close_removes(id);
    let (rest, focus) = t.without(id)->0;
    window::lemma_position(t.leaves(), id);
    window::lemma_position(rest.leaves(), focus);
    let i = window::position(t.leaves(), id)->0;
    if let WindowTree::Split { axis, a, b, ratio } = t {
        let x = a.leaves();
        let y = b.leaves();
        lemma_halves_distinct(x, y);
        window::lemma_position_concat(x, y, id);
        window::lemma_position(x, id);
        window::lemma_position(y, id);
        lemma_not_in_both(*a, *b, id);
        a.lemma_some_leaf();
        b.lemma_some_leaf();
        if a.is_leaf(id) {
            assert(x =~= seq![x[0]] && x[0].id == id);
            assert(rest.leaves()[0].id == focus);
            assert(window::position(rest.leaves(), focus) == Some(0int));
        } else if b.is_leaf(id) {
            assert(y =~= seq![y[0]] && y[0].id == id);
            assert(rest.leaves()[0].id == focus);
            assert(window::position(rest.leaves(), focus) == Some(0int));
        } else if a.has(id) {
            lemma_close_focuses_sibling(*a, id);
            b.lemma_close_removes(id);
            let (u, g) = a.without(id)->0;
            window::lemma_position_concat(u.leaves(), y, g);
            window::lemma_position(u.leaves(), g);
        } else {
            a.lemma_close_removes(id);
            lemma_close_focuses_sibling(*b, id);
            let (u, g) = b.without(id)->0;
            window::lemma_position_concat(x, u.leaves(), g);
            window::lemma_position(u.leaves(), g);
            window::lemma_position(x, g);
            let f = window::position(u.leaves(), g)->0;
            let j = window::position(y, id)->0;
            assert(u.leaves()[f].id == g);
            if window::position(x, g) is None {
                assert(window::position(rest.leaves(), focus) == Some(f + x.len()));
                if f == j {
                    assert(u.leaves()[f] == y[j + 1]);
                    assert(t.leaves()[i + 1] == y[j + 1]);
                }
            }
        }
    }
}

/// Windows that differ in all do so in each part.
pub(crate) proof fn lemma_halves_distinct(x: Seq<Window>, y: Seq<Window>)
    requires
        window::distinct(x + y),
    ensures
        window::distinct(x),
        window::distinct(y),
{
    assert forall|i: int, j: int|
        0 <= i < x.len() && 0 <= j < x.len() && i != j implies #[trigger] x[i].id
        != #[trigger] x[j].id by {
        assert((x + y)[i] == x[i] && (x + y)[j] == x[j]);
    }
    assert forall|i: int, j: int|
        0 <= i < y.len() && 0 <= j < y.len() && i != j implies #[trigger] y[i].id
        != #[trigger] y[j].id by {
        assert((x + y)[x.len() + i] == y[i] && (x + y)[x.len() + j] == y[j]);
    }
}

/// The ratio that resizing reads is the one that it writes: written, it reads
/// back, and what resizing along the other axis reads is left alone. Where
/// there is none to read, none is written.
pub proof fn lemma_ratio_reads_back(t: WindowTree, id: WindowId, axis: Axis, ratio: Real32)
    ensures
        t.ratio_over(id, axis) is Some ==> t.with_ratio(id, axis, ratio).ratio_over(id, axis)
            == Some(ratio),
        t.ratio_over(id, axis) is None ==> t.with_ratio(id, axis, ratio) == t,
        forall|other: Axis|
            other != axis ==> #[trigger] t.with_ratio(id, axis, ratio).ratio_over(id, other)
                == t.ratio_over(id, other),
    decreases t,
{
    if let WindowTree::Split { axis: this, a, b, ratio: own } = t {
        t.lemma_ratios_keep_windows(id, axis, ratio);
        a.lemma_ratios_keep_windows(id, axis, ratio);
        b.lemma_ratios_keep_windows(id, axis, ratio);
        lemma_ratio_reads_back(*a, id, axis, ratio);
        lemma_ratio_reads_back(*b, id, axis, ratio);
        window::lemma_position_concat(a.leaves(), b.leaves(), id);
        let x = a.with_ratio(id, axis, ratio);
        let y = b.with_ratio(id, axis, ratio);
        assert forall|other: Axis| other != axis implies #[trigger] t.with_ratio(
            id,
            axis,
            ratio,
        ).ratio_over(id, other) == t.ratio_over(id, other) by {
            assert(x.ratio_over(id, other) == a.ratio_over(id, other));
            assert(y.ratio_over(id, other) == b.ratio_over(id, other));
        }
    }
}

/// Resizing a window that stands alone in its half of a split along the axis
/// changes that split; along the other axis it does not.
pub proof fn lemma_resize_own_split(
    w: Window,
    sibling: WindowTree,
    axis: Axis,
    own: Real32,
    ratio: Real32,
    other: Axis,
)
    requires
        !sibling.has(w.id),
        other != axis,
    ensures
        ({
            let first = WindowTree::Split {
                axis,
                a: Box::new(WindowTree::Leaf(w)),
                b: Box::new(sibling),
                ratio: own,
            };
            let second = WindowTree::Split {
                axis,
                a: Box::new(sibling),
                b: Box::new(WindowTree::Leaf(w)),
                ratio: own,
            };
            &&& first.ratio_over(w.id, axis) == Some(own)
            &&& second.ratio_over(w.id, axis) == Some(own)
            &&& first.with_ratio(w.id, axis, ratio) == (WindowTree::Split {
                axis,
                a: Box::new(WindowTree::Leaf(w)),
                b: Box::new(sibling),
                ratio,
            })
            &&& second.with_ratio(w.id, axis, ratio) == (WindowTree::Split {
                axis,
                a: Box::new(sibling),
                b: Box::new(WindowTree::Leaf(w)),
                ratio,
            })
            &&& first.ratio_over(w.id, other) is None
            &&& second.ratio_over(w.id, other) is None
        }),
{
    reveal_with_fuel(WindowTree::ratio_over, 2);
    reveal_with_fuel(WindowTree::leaves, 2);
    let own_leaf = WindowTree::Leaf(w);
    assert(own_leaf.leaves() =~= seq![w]);
    window::lemma_position(own_leaf.leaves(), w.id);
    assert(own_leaf.leaves()[0].id == w.id);
    window::lemma_position_concat(own_leaf.leaves(), sibling.leaves(), w.id);
    window::lemma_position_concat(sibling.leaves(), own_leaf.leaves(), w.id);
}

/// After equalizing every split that a window can be resized by stands at one
/// half.
pub proof fn lemma_equalize_halves(t: WindowTree, id: WindowId, axis: Axis)
    ensures
        t.equalized().ratio_over(id, axis) matches Some(r) ==> r == (Real32 { bits: 0x3F00_0000 }),
        t.equalized().ratio_over(id, axis) is Some <==> t.ratio_over(id, axis) is Some,
        t.equalized().equalized() == t.equalized(),
    decreases t,
{
    if let WindowTree::Split { a, b, .. } = t {
        t.lemma_ratios_keep_windows(id, axis, Real32 { bits: 0 });
        a.lemma_ratios_keep_windows(id, axis, Real32 { bits: 0 });
        b.lemma_ratios_keep_windows(id, axis, Real32 { bits: 0 });
        lemma_equalize_halves(*a, id, axis);
        lemma_equalize_halves(*b, id, axis);
    }
}

/// A window's page area is as wide as its columns and as high as its rows but
/// the last, which is for the title; it is never empty, and nothing else of
/// the window changes but that it is to be painted again.
pub proof fn lemma_fitted_screen(w: Window, r: CellRect, cell_w: u16, cell_h: u16)
    ensures
        ({
            let f = window::fitted_window(w, r, cell_w, cell_h);
            &&& r.cols > 0 && cell_w > 0 ==> f.viewport.screen_w == r.cols * cell_w
            &&& r.rows > 1 && cell_h > 0 ==> f.viewport.screen_h == (r.rows - 1) * cell_h
            &&& r.rows <= 1 && cell_h > 0 ==> f.viewport.screen_h == cell_h
            &&& r.cols == 0 || cell_w == 0 ==> f.viewport.screen_w == 1
            &&& cell_h == 0 ==> f.viewport.screen_h == 1
            &&& f.viewport.page_idx == w.viewport.page_idx
            &&& f.viewport.x_off == w.viewport.x_off
            &&& f.viewport.y_off == w.viewport.y_off
            &&& f.viewport.zoom == w.viewport.zoom
            &&& f.viewport.rotation == w.viewport.rotation
            &&& f.id == w.id && f.buffer == w.buffer && f.alternate == w.alternate
            &&& f.dirty
        }),
{
    assert(0 <= r.cols * cell_w <= 0xFFFF * 0xFFFF) by (nonlinear_arith)
        requires
            0 <= r.cols <= 0xFFFF,
            0 <= cell_w <= 0xFFFF,
    ;
    assert(r.cols > 0 && cell_w > 0 ==> r.cols * cell_w >= 1) by (nonlinear_arith);
    assert(r.cols == 0 || cell_w == 0 ==> r.cols * cell_w == 0) by (nonlinear_arith);
    let n = crate::terminal::at_least_one(r.rows - 1);
    assert(0 <= n * cell_h <= 0xFFFF * 0xFFFF) by (nonlinear_arith)
        requires
            0 <= n <= 0xFFFF,
            0 <= cell_h <= 0xFFFF,
    ;
    assert(n > 0 && cell_h > 0 ==> n * cell_h >= 1) by (nonlinear_arith);
    assert(cell_h == 0 ==> n * cell_h == 0) by (nonlinear_arith);
}

/// A window that loads another buffer keeps the one it leaves as its
/// alternate, so that loading that one goes back; loading the buffer that it
/// shows keeps the alternate.
pub proof fn lemma_load_and_back(w: Window, buffer: BufferId)
    ensures
        w.loaded(buffer).buffer == buffer,
        w.loaded(buffer).dirty,
        w.loaded(buffer).id == w.id,
        w.loaded(buffer).viewport == w.viewport,
        buffer != w.buffer ==> {
            &&& w.loaded(buffer).alternate == Some(w.buffer)
            &&& w.loaded(buffer).loaded(w.buffer).buffer == w.buffer
            &&& w.loaded(buffer).loaded(w.buffer).alternate == Some(buffer)
        },
        buffer == w.buffer ==> w.loaded(buffer).alternate == w.alternate,
{
}

} // verus!
