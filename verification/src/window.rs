//! Vim-style split tree.
//!
//! A tab owns a `WindowTree`. Each leaf is a `Window` that holds a `BufferId`
//! and its own `Viewport`. Two windows with the same `BufferId` are two
//! viewports on one document.
//!
//! The tree is split-only: every internal node is a horizontal or vertical
//! split whose ratio can be nudged or reset. Layout works on whole cells, so
//! every split edge lands on a cell boundary.
use vstd::prelude::*;

use crate::buffer::BufferId;
use crate::number::{
    Real32, NINETEEN_TWENTIETHS, NINE_TENTHS, ONE_HALF, ONE_TENTH, ONE_TWENTIETH, SEVENTY_TWO,
};
use crate::sixel_write::ColorMode;
use crate::timings::FrameTiming;
use crate::viewport::Viewport;

verus! {

/// Per-window identifier.
#[derive(Debug, Clone, Copy, PartialEq, Eq, Structural, Hash)]
pub struct WindowId(pub u32);

/// Hands out window ids, from 1 upwards.
#[derive(Debug)]
pub struct WindowIdSource {
    pub upcoming: u32,
}

impl WindowIdSource {
    pub fn new() -> (s: WindowIdSource)
        ensures
            s.upcoming == 1,
    {
        WindowIdSource { upcoming: 1 }
    }

    /// A fresh id: none handed out before it is as large.
    pub fn next(&mut self) -> (id: WindowId)
        requires
            old(self).upcoming < u32::MAX,
        ensures
            id == WindowId(old(self).upcoming),
            final(self).upcoming == old(self).upcoming + 1,
    {
        let id = WindowId(self.upcoming);
        self.upcoming = self.upcoming + 1;
        id
    }
}

/// A cell-aligned rectangle in the terminal.
#[derive(Debug, Clone, Copy, PartialEq, Eq, Structural)]
pub struct CellRect {
    pub col: u16,
    pub row: u16,
    pub cols: u16,
    pub rows: u16,
}

impl CellRect {
    /// The rectangle ends within the range of cell coordinates.
    pub open spec fn on_grid(self) -> bool {
        self.col + self.cols <= u16::MAX && self.row + self.rows <= u16::MAX
    }

    /// The cell at (`col`, `row`) lies in the rectangle.
    pub open spec fn covers(self, col: int, row: int) -> bool {
        self.col <= col < self.col + self.cols && self.row <= row < self.row + self.rows
    }

    pub open spec fn empty(self) -> bool {
        self.cols == 0 || self.rows == 0
    }

    /// First column after the rectangle.
    pub open spec fn end_col(self) -> int {
        if self.col + self.cols > u16::MAX {
            u16::MAX as int
        } else {
            self.col + self.cols
        }
    }

    /// First row after the rectangle.
    pub open spec fn end_row(self) -> int {
        if self.row + self.rows > u16::MAX {
            u16::MAX as int
        } else {
            self.row + self.rows
        }
    }

    pub fn right(&self) -> (r: u16)
        ensures
            r == self.end_col(),
    {
        self.col.saturating_add(self.cols)
    }

    pub fn bottom(&self) -> (r: u16)
        ensures
            r == self.end_row(),
    {
        self.row.saturating_add(self.rows)
    }

    pub fn is_empty(&self) -> (b: bool)
        ensures
            b == self.empty(),
    {
        self.cols == 0 || self.rows == 0
    }
}

/// One open view: a viewport onto a buffer.
#[derive(Debug, Clone, Copy, PartialEq, Eq, Structural)]
pub struct Window {
    pub id: WindowId,
    /// Which buffer this window is showing. Multiple windows may share one.
    pub buffer: BufferId,
    /// The buffer this window showed before.
    pub alternate: Option<BufferId>,
    pub viewport: Viewport,
    pub color_mode: ColorMode,
    pub last_timing: Option<FrameTiming>,
    pub last_dpi: Real32,
    pub last_sixel_rows: u16,
    /// Rect of the last paint. `None` before the first paint.
    pub last_rect: Option<CellRect>,
    /// Force a re-render (a cache hit is still fine).
    pub dirty: bool,
}

impl Window {
    pub open spec fn fresh(id: WindowId, buffer: BufferId, viewport: Viewport) -> Window {
        Window {
            id,
            buffer,
            alternate: None,
            viewport,
            color_mode: ColorMode::XTerm256,
            last_timing: None,
            last_dpi: Real32 { bits: SEVENTY_TWO },
            last_sixel_rows: 0,
            last_rect: None,
            dirty: true,
        }
    }

    /// The window pointed at `buffer`; the buffer it leaves becomes the
    /// alternate.
    pub open spec fn loaded(self, buffer: BufferId) -> Window {
        if self.buffer != buffer {
            Window { alternate: Some(self.buffer), buffer, dirty: true, ..self }
        } else {
            Window { dirty: true, ..self }
        }
    }

    pub fn new(id: WindowId, buffer: BufferId, viewport: Viewport) -> (w: Window)
        ensures
            w == Window::fresh(id, buffer, viewport),
    {
        Window {
            id,
            buffer,
            alternate: None,
            viewport,
            color_mode: ColorMode::XTerm256,
            last_timing: None,
            last_dpi: Real32 { bits: SEVENTY_TWO },
            last_sixel_rows: 0,
            last_rect: None,
            dirty: true,
        }
    }

    /// Point this window at a new buffer, stashing the old one as alternate.
    pub fn load(&mut self, buffer: BufferId)
        ensures
            *final(self) == old(self).loaded(buffer),
    {
        if self.buffer != buffer {
            self.alternate = Some(self.buffer);
            self.buffer = buffer;
        }
        self.dirty = true;
    }
}

/// Split orientation.
#[derive(Debug, Clone, Copy, PartialEq, Eq, Structural)]
pub enum Axis {
    /// Horizontal split: top / bottom.
    Horizontal,
    /// Vertical split: left / right.
    Vertical,
}

/// Direction for focus moves.
#[derive(Debug, Clone, Copy, PartialEq, Eq, Structural)]
pub enum Direction {
    Left,
    Right,
    Up,
    Down,
}

/// Recursive split tree.
#[derive(Debug)]
pub enum WindowTree {
    Leaf(Window),
    Split {
        axis: Axis,
        /// First child: top (Horizontal) or left (Vertical).
        a: Box<WindowTree>,
        /// Second child: bottom (Horizontal) or right (Vertical).
        b: Box<WindowTree>,
        /// Fraction of the total range that `a` gets.
        ratio: Real32,
    },
}

/// What closing a window did.
#[derive(Debug, Clone, Copy, PartialEq, Eq, Structural)]
pub enum CloseOutcome {
    /// The tree still has leaves; focus should move to `new_focus`.
    Closed { new_focus: WindowId },
    /// The leaf was the last in the tree, which is unchanged.
    LastWindow,
    NotFound,
}

/// Position of the first window with that id.
pub open spec fn position(leaves: Seq<Window>, id: WindowId) -> Option<int>
    decreases leaves.len(),
{
    if leaves.len() == 0 {
        None
    } else if leaves[0].id == id {
        Some(0)
    } else {
        match position(leaves.skip(1), id) {
            Some(i) => Some(i + 1),
            None => None,
        }
    }
}

/// No two windows share an id.
pub open spec fn distinct(leaves: Seq<Window>) -> bool {
    forall|i: int, j: int|
        0 <= i < leaves.len() && 0 <= j < leaves.len() && i != j ==> #[trigger] leaves[i].id
            != #[trigger] leaves[j].id
}

/// `position` finds the first window with the id, or that there is none.
pub proof fn lemma_position(leaves: Seq<Window>, id: WindowId)
    ensures
        position(leaves, id) matches Some(i) ==> {
            &&& 0 <= i < leaves.len()
            &&& leaves[i].id == id
            &&& forall|j: int| 0 <= j < i ==> (#[trigger] leaves[j]).id != id
        },
        position(leaves, id) is None ==> forall|j: int|
            0 <= j < leaves.len() ==> (#[trigger] leaves[j]).id != id,
    decreases leaves.len(),
{
    if leaves.len() > 0 && leaves[0].id != id {
        let rest = leaves.skip(1);
        lemma_position(rest, id);
        assert forall|j: int| 1 <= j < leaves.len() implies leaves[j] == rest[j - 1] by {}
    }
}

/// Only the ids decide where a window is found.
pub proof fn lemma_position_same(x: Seq<Window>, y: Seq<Window>, id: WindowId)
    requires
        x.len() == y.len(),
        forall|i: int| 0 <= i < x.len() ==> (#[trigger] x[i]).id == y[i].id,
    ensures
        position(x, id) == position(y, id),
    decreases x.len(),
{
    if x.len() > 0 {
        assert(x[0].id == y[0].id);
        let a = x.skip(1);
        let b = y.skip(1);
        assert forall|i: int| 0 <= i < a.len() implies (#[trigger] a[i]).id == b[i].id by {
            assert(a[i] == x[i + 1] && b[i] == y[i + 1]);
        }
        lemma_position_same(a, b, id);
    }
}

/// The window that `position` finds in a concatenation.
pub proof fn lemma_position_concat(x: Seq<Window>, y: Seq<Window>, id: WindowId)
    ensures
        position(x + y, id) == (match position(x, id) {
            Some(i) => Some(i),
            None => match position(y, id) {
                Some(i) => Some(i + x.len()),
                None => None,
            },
        }),
    decreases x.len(),
{
    if x.len() == 0 {
        assert(x + y == y);
    } else {
        assert((x + y).skip(1) == x.skip(1) + y);
        lemma_position_concat(x.skip(1), y, id);
    }
}

/// Cells that the first child gets of `total`, when its share is `raw`: at
/// least one, and all but one at most where there are two.
pub open spec fn cut(total: u16, raw: u16) -> int {
    let most: int = if total > 2 {
        total - 1
    } else {
        1
    };
    if raw < 1 {
        1
    } else if raw > most {
        most
    } else {
        raw as int
    }
}

/// Number of cells that a split along `axis` divides.
pub open spec fn extent(rect: CellRect, axis: Axis) -> u16 {
    match axis {
        Axis::Horizontal => rect.rows,
        Axis::Vertical => rect.cols,
    }
}

/// The part of `rect` before a cut at `n` cells.
pub open spec fn before_cut(rect: CellRect, axis: Axis, n: int) -> CellRect {
    match axis {
        Axis::Horizontal => CellRect { rows: n as u16, ..rect },
        Axis::Vertical => CellRect { cols: n as u16, ..rect },
    }
}

/// The part of `rect` after a cut at `n` cells.
pub open spec fn after_cut(rect: CellRect, axis: Axis, n: int) -> CellRect {
    match axis {
        Axis::Horizontal => CellRect {
            row: (rect.row + n) as u16,
            rows: (rect.rows - n) as u16,
            ..rect
        },
        Axis::Vertical => CellRect {
            col: (rect.col + n) as u16,
            cols: (rect.cols - n) as u16,
            ..rect
        },
    }
}

/// A ratio as layout uses it.
pub open spec fn bounded_ratio(ratio: Real32) -> Real32 {
    ratio.clamped(Real32 { bits: ONE_TWENTIETH }, Real32 { bits: NINETEEN_TWENTIETHS })
}

/// Position of the first entry for that window.
pub open spec fn entry(layout: Seq<(WindowId, CellRect)>, id: WindowId) -> Option<int>
    decreases layout.len(),
{
    if layout.len() == 0 {
        None
    } else if layout[0].0 == id {
        Some(0)
    } else {
        match entry(layout.skip(1), id) {
            Some(i) => Some(i + 1),
            None => None,
        }
    }
}

/// `entry` finds the first entry for the window, or that there is none.
pub proof fn lemma_entry(layout: Seq<(WindowId, CellRect)>, id: WindowId)
    ensures
        entry(layout, id) matches Some(i) ==> {
            &&& 0 <= i < layout.len()
            &&& layout[i].0 == id
            &&& forall|j: int| 0 <= j < i ==> (#[trigger] layout[j]).0 != id
        },
        entry(layout, id) is None ==> forall|j: int|
            0 <= j < layout.len() ==> (#[trigger] layout[j]).0 != id,
    decreases layout.len(),
{
    if layout.len() > 0 && layout[0].0 != id {
        let rest = layout.skip(1);
        lemma_entry(rest, id);
        assert forall|j: int| 1 <= j < layout.len() implies layout[j] == rest[j - 1] by {}
    }
}

/// The window with its screen set to a rectangle of cells, less one row.
pub open spec fn fitted_window(w: Window, r: CellRect, cell_w: u16, cell_h: u16) -> Window {
    Window {
        viewport: Viewport {
            screen_w: crate::terminal::at_least_one(r.cols * cell_w) as u32,
            screen_h: crate::terminal::at_least_one(crate::terminal::at_least_one(r.rows - 1) * cell_h) as u32,
            ..w.viewport
        },
        dirty: true,
        ..w
    }
}

proof fn lemma_cells_fit(n: u16, px: u16)
    ensures
        0 <= n * px <= u32::MAX,
{
    assert(0 <= n * px <= 0xFFFF * 0xFFFF) by (nonlinear_arith)
        requires
            0 <= n <= 0xFFFF,
            0 <= px <= 0xFFFF,
    ;
}

/// Length of the overlap of two ranges, zero where they do not meet.
pub open spec fn overlap(start1: int, end1: int, start2: int, end2: int) -> int {
    let start = if start1 > start2 {
        start1
    } else {
        start2
    };
    let end = if end1 < end2 {
        end1
    } else {
        end2
    };
    if end > start {
        end - start
    } else {
        0
    }
}

/// Rows that two rectangles share.
pub open spec fn shared_rows(r: CellRect, f: CellRect) -> int {
    overlap(r.row as int, r.end_row(), f.row as int, f.end_row())
}

/// Columns that two rectangles share.
pub open spec fn shared_cols(r: CellRect, f: CellRect) -> int {
    overlap(r.col as int, r.end_col(), f.col as int, f.end_col())
}

/// Where `r` lies beside `f` in a direction and faces it: the gap between
/// them and the length along which they face each other.
pub open spec fn beside(f: CellRect, dir: Direction, r: CellRect) -> Option<(int, int)> {
    let (gap, facing) = match dir {
        Direction::Left => (f.col - r.end_col(), shared_rows(r, f)),
        Direction::Right => (r.col - f.end_col(), shared_rows(r, f)),
        Direction::Up => (f.row - r.end_row(), shared_cols(r, f)),
        Direction::Down => (r.row - f.end_row(), shared_cols(r, f)),
    };
    if gap >= 0 && facing > 0 {
        Some((gap, facing))
    } else {
        None
    }
}

/// A smaller gap is nearer; of equal gaps, the one that faces along more cells.
pub open spec fn nearer(p: (int, int), q: (int, int)) -> bool {
    p.0 < q.0 || (p.0 == q.0 && p.1 > q.1)
}

/// Entry `i` is another window beside the rectangle `f` of `focused`.
pub open spec fn candidate(
    layout: Seq<(WindowId, CellRect)>,
    focused: WindowId,
    f: CellRect,
    dir: Direction,
    i: int,
) -> bool {
    &&& 0 <= i < layout.len()
    &&& layout[i].0 != focused
    &&& beside(f, dir, layout[i].1) is Some
}

/// Entry `i` is the nearest candidate; of equally near ones the first.
pub open spec fn nearest(
    layout: Seq<(WindowId, CellRect)>,
    focused: WindowId,
    f: CellRect,
    dir: Direction,
    i: int,
) -> bool {
    &&& candidate(layout, focused, f, dir, i)
    &&& forall|j: int| #[trigger]
        candidate(layout, focused, f, dir, j) ==> {
            &&& !nearer(beside(f, dir, layout[j].1)->0, beside(f, dir, layout[i].1)->0)
            &&& j < i ==> nearer(beside(f, dir, layout[i].1)->0, beside(f, dir, layout[j].1)->0)
        }
}

/// `r` is the neighbour of `focused` in direction `dir`.
pub open spec fn is_neighbour(
    layout: Seq<(WindowId, CellRect)>,
    focused: WindowId,
    dir: Direction,
    r: Option<WindowId>,
) -> bool {
    match entry(layout, focused) {
        None => r is None,
        Some(k) => {
            let f = layout[k].1;
            match r {
                Some(id) => exists|i: int| #[trigger]
                    nearest(layout, focused, f, dir, i) && id == layout[i].0,
                None => forall|i: int| !#[trigger] candidate(layout, focused, f, dir, i),
            }
        },
    }
}

fn overlap_of(start1: u16, end1: u16, start2: u16, end2: u16) -> (n: i32)
    ensures
        n == overlap(start1 as int, end1 as int, start2 as int, end2 as int),
{
    let start: u16 = if start1 > start2 {
        start1
    } else {
        start2
    };
    let end: u16 = if end1 < end2 {
        end1
    } else {
        end2
    };
    if end > start {
        (end - start) as i32
    } else {
        0
    }
}

fn beside_of(f: &CellRect, dir: Direction, r: &CellRect) -> (p: Option<(i32, i32)>)
    ensures
        match beside(*f, dir, *r) {
            Some(q) => p matches Some((gap, facing)) && gap == q.0 && facing == q.1,
            None => p is None,
        },
{
    let (gap, facing): (i32, i32) = match dir {
        Direction::Left => (
            f.col as i32 - r.right() as i32,
            overlap_of(r.row, r.bottom(), f.row, f.bottom()),
        ),
        Direction::Right => (
            r.col as i32 - f.right() as i32,
            overlap_of(r.row, r.bottom(), f.row, f.bottom()),
        ),
        Direction::Up => (
            f.row as i32 - r.bottom() as i32,
            overlap_of(r.col, r.right(), f.col, f.right()),
        ),
        Direction::Down => (
            r.row as i32 - f.bottom() as i32,
            overlap_of(r.col, r.right(), f.col, f.right()),
        ),
    };
    if gap >= 0 && facing > 0 {
        Some((gap, facing))
    } else {
        None
    }
}

/// Pick the nearest window in `dir` from `focused` among laid-out windows.
pub fn neighbour_in(layout: &Vec<(WindowId, CellRect)>, focused: WindowId, dir: Direction) -> (r:
    Option<WindowId>)
    ensures
        is_neighbour(layout@, focused, dir, r),
{
    let n: usize = layout.len();
    let mut k: usize = 0;
    proof {
        lemma_entry(layout@, focused);
    }
    while k < n && layout[k].0 != focused
        invariant
            k <= n,
            n == layout@.len(),
            forall|j: int| 0 <= j < k ==> (#[trigger] layout@[j]).0 != focused,
        decreases n - k,
    {
        k += 1;
    }
    if k == n {
        return None;
    }
    let f: CellRect = layout[k].1;
    assert(entry(layout@, focused) == Some(k as int));
    let mut best: Option<(usize, i32, i32)> = None;
    let mut i: usize = 0;
    while i < n
        invariant
            i <= n,
            n == layout@.len(),
            match best {
                None => forall|j: int| j < i ==> !#[trigger] candidate(layout@, focused, f, dir, j),
                Some((m, gap, facing)) => {
                    &&& m < i
                    &&& candidate(layout@, focused, f, dir, m as int)
                    &&& beside(f, dir, layout@[m as int].1)->0 == (gap as int, facing as int)
                    &&& forall|j: int|
                        j < i && #[trigger] candidate(layout@, focused, f, dir, j) ==> {
                            &&& !nearer(
                                beside(f, dir, layout@[j].1)->0,
                                (gap as int, facing as int),
                            )
                            &&& j < m ==> nearer(
                                (gap as int, facing as int),
                                beside(f, dir, layout@[j].1)->0,
                            )
                        }
                },
            },
        decreases n - i,
    {
        if layout[i].0 != focused {
            match beside_of(&f, dir, &layout[i].1) {
                None => {},
                Some((gap, facing)) => {
                    let take: bool = match best {
                        None => true,
                        Some((_, best_gap, best_facing)) => gap < best_gap || (gap == best_gap
                            && facing > best_facing),
                    };
                    if take {
                        best = Some((i, gap, facing));
                    }
                },
            }
        }
        i += 1;
    }
    match best {
        Some((m, _, _)) => {
            assert(nearest(layout@, focused, f, dir, m as int));
            Some(layout[m].0)
        },
        None => None,
    }
}

proof fn lemma_first_has(leaves: Seq<Window>)
    requires
        leaves.len() > 0,
    ensures
        position(leaves, leaves[0].id) is Some,
{
}

proof fn lemma_steps_cancel(n: int, i: int)
    requires
        0 <= i < n,
    ensures
        ((i + 1) % n + n - 1) % n == i,
        ((i + n - 1) % n + 1) % n == i,
{
    if i + 1 < n {
        vstd::arithmetic::div_mod::lemma_small_mod((i + 1) as nat, n as nat);
        vstd::arithmetic::div_mod::lemma_mod_add_multiples_vanish(i, n);
        vstd::arithmetic::div_mod::lemma_small_mod(i as nat, n as nat);
    } else {
        vstd::arithmetic::div_mod::lemma_mod_self_0(n);
        vstd::arithmetic::div_mod::lemma_small_mod((n - 1) as nat, n as nat);
    }
    if i > 0 {
        vstd::arithmetic::div_mod::lemma_mod_add_multiples_vanish(i - 1, n);
        vstd::arithmetic::div_mod::lemma_small_mod((i - 1) as nat, n as nat);
        vstd::arithmetic::div_mod::lemma_small_mod(i as nat, n as nat);
    } else {
        vstd::arithmetic::div_mod::lemma_small_mod((n - 1) as nat, n as nat);
        vstd::arithmetic::div_mod::lemma_mod_self_0(n);
    }
}

impl WindowTree {
    /// The windows in tree order: top before bottom, left before right.
    pub open spec fn leaves(self) -> Seq<Window>
        decreases self,
    {
        match self {
            WindowTree::Leaf(w) => seq![w],
            WindowTree::Split { a, b, .. } => a.leaves() + b.leaves(),
        }
    }

    /// Some window of the tree has that id.
    pub open spec fn has(self, id: WindowId) -> bool {
        position(self.leaves(), id) is Some
    }

    /// The tree with the first window called `id` split: it stays first and
    /// `new_window` comes after it, each with half of the room. `None` where
    /// no window has that id.
    pub open spec fn split_at(self, id: WindowId, axis: Axis, new_window: Window) -> Option<
        WindowTree,
    >
        decreases self,
    {
        match self {
            WindowTree::Leaf(w) => if w.id == id {
                Some(
                    WindowTree::Split {
                        axis,
                        a: Box::new(WindowTree::Leaf(w)),
                        b: Box::new(WindowTree::Leaf(new_window)),
                        ratio: Real32 { bits: ONE_HALF },
                    },
                )
            } else {
                None
            },
            WindowTree::Split { axis: this, a, b, ratio } => match a.split_at(id, axis, new_window) {
                Some(t) => Some(WindowTree::Split { axis: this, a: Box::new(t), b, ratio }),
                None => match b.split_at(id, axis, new_window) {
                    Some(t) => Some(WindowTree::Split { axis: this, a, b: Box::new(t), ratio }),
                    None => None,
                },
            },
        }
    }

    /// This very node is the window `id`.
    pub open spec fn is_leaf(self, id: WindowId) -> bool {
        self matches WindowTree::Leaf(w) && w.id == id
    }

    /// The tree without the window `id`, whose sibling takes its place, and
    /// that sibling's first window. `None` where no window below a split has
    /// that id.
    pub open spec fn without(self, id: WindowId) -> Option<(WindowTree, WindowId)>
        decreases self,
    {
        match self {
            WindowTree::Leaf(_) => None,
            WindowTree::Split { axis, a, b, ratio } => if a.is_leaf(id) {
                Some((*b, b.leaves()[0].id))
            } else if b.is_leaf(id) {
                Some((*a, a.leaves()[0].id))
            } else {
                match a.without(id) {
                    Some((t, focus)) => Some(
                        (WindowTree::Split { axis, a: Box::new(t), b, ratio }, focus),
                    ),
                    None => match b.without(id) {
                        Some((t, focus)) => Some(
                            (WindowTree::Split { axis, a, b: Box::new(t), ratio }, focus),
                        ),
                        None => None,
                    },
                }
            },
        }
    }

    /// The window after `focused` in tree order, or before it; the last and
    /// the first are next to each other.
    pub open spec fn cycled(self, focused: WindowId, reverse: bool) -> Option<WindowId> {
        match position(self.leaves(), focused) {
            None => None,
            Some(i) => {
                let n = self.leaves().len() as int;
                Some(
                    self.leaves()[if reverse {
                        (i + n - 1) % n
                    } else {
                        (i + 1) % n
                    }].id,
                )
            },
        }
    }

    /// The tree with every ratio at one half.
    pub open spec fn equalized(self) -> WindowTree
        decreases self,
    {
        match self {
            WindowTree::Leaf(_) => self,
            WindowTree::Split { axis, a, b, .. } => WindowTree::Split {
                axis,
                a: Box::new(a.equalized()),
                b: Box::new(b.equalized()),
                ratio: Real32 { bits: ONE_HALF },
            },
        }
    }

    /// The ratio of the split nearest above the window `id` among those along
    /// `axis`.
    pub open spec fn ratio_over(self, id: WindowId, axis: Axis) -> Option<Real32>
        decreases self,
    {
        match self {
            WindowTree::Leaf(_) => None,
            WindowTree::Split { axis: this, a, b, ratio } => {
                let below = if a.has(id) {
                    a.ratio_over(id, axis)
                } else {
                    b.ratio_over(id, axis)
                };
                if !self.has(id) {
                    None
                } else if below is None && this == axis {
                    Some(ratio)
                } else {
                    below
                }
            },
        }
    }

    /// The tree with that ratio replaced.
    pub open spec fn with_ratio(self, id: WindowId, axis: Axis, new_ratio: Real32) -> WindowTree
        decreases self,
    {
        match self {
            WindowTree::Leaf(_) => self,
            WindowTree::Split { axis: this, a, b, ratio } => {
                if !self.has(id) {
                    self
                } else if a.has(id) && a.ratio_over(id, axis) is Some {
                    WindowTree::Split {
                        axis: this,
                        a: Box::new(a.with_ratio(id, axis, new_ratio)),
                        b,
                        ratio,
                    }
                } else if !a.has(id) && b.ratio_over(id, axis) is Some {
                    WindowTree::Split {
                        axis: this,
                        a,
                        b: Box::new(b.with_ratio(id, axis, new_ratio)),
                        ratio,
                    }
                } else if this == axis {
                    WindowTree::Split { axis: this, a, b, ratio: new_ratio }
                } else {
                    self
                }
            },
        }
    }

    /// The tree with the window at position `i` replaced by `w`.
    pub open spec fn with_leaf(self, i: int, w: Window) -> WindowTree
        decreases self,
    {
        match self {
            WindowTree::Leaf(_) => WindowTree::Leaf(w),
            WindowTree::Split { axis, a, b, ratio } => if i < a.leaves().len() {
                WindowTree::Split { axis, a: Box::new(a.with_leaf(i, w)), b, ratio }
            } else {
                WindowTree::Split {
                    axis,
                    a,
                    b: Box::new(b.with_leaf(i - a.leaves().len(), w)),
                    ratio,
                }
            },
        }
    }

    pub fn leaf(window: Window) -> (t: WindowTree)
        ensures
            t == WindowTree::Leaf(window),
    {
        WindowTree::Leaf(window)
    }

    /// Number of windows.
    pub fn leaf_count(&self) -> (n: usize)
        requires
            self.leaves().len() <= usize::MAX,
        ensures
            n == self.leaves().len(),
        decreases self,
    {
        match self {
            WindowTree::Leaf(_) => 1,
            WindowTree::Split { a, b, .. } => a.leaf_count() + b.leaf_count(),
        }
    }

    /// The first window with that id.
    pub fn find(&self, id: WindowId) -> (r: Option<&Window>)
        ensures
            match position(self.leaves(), id) {
                Some(i) => r == Some(&self.leaves()[i]),
                None => r is None,
            },
        decreases self,
    {
        match self {
            WindowTree::Leaf(w) => {
                reveal_with_fuel(position, 2);
                if w.id == id {
                    Some(w)
                } else {
                    None
                }
            },
            WindowTree::Split { a, b, .. } => {
                proof {
                    lemma_position_concat(a.leaves(), b.leaves(), id);
                    lemma_position(a.leaves(), id);
                    lemma_position(b.leaves(), id);
                }
                match a.find(id) {
                    Some(w) => Some(w),
                    None => b.find(id),
                }
            },
        }
    }

    /// The first window with that id, for changing it in place.
    pub fn find_mut(&mut self, id: WindowId) -> (r: Option<&mut Window>)
        ensures
            match position(old(self).leaves(), id) {
                Some(i) => {
                    &&& r matches Some(w)
                    &&& *w == old(self).leaves()[i]
                    &&& *final(self) == old(self).with_leaf(i, *final(w))
                },
                None => r is None && *final(self) == *old(self),
            },
        decreases *old(self),
    {
        match self {
            WindowTree::Leaf(w) => {
                reveal_with_fuel(position, 2);
                if w.id == id {
                    Some(w)
                } else {
                    None
                }
            },
            WindowTree::Split { a, b, .. } => {
                proof {
                    lemma_position_concat(a.leaves(), b.leaves(), id);
                    lemma_position(a.leaves(), id);
                    lemma_position(b.leaves(), id);
                }
                if a.find(id).is_some() {
                    a.find_mut(id)
                } else {
                    b.find_mut(id)
                }
            },
        }
    }

    /// The windows in tree order.
    pub fn windows(&self) -> (out: Vec<&Window>)
        ensures
            out@.len() == self.leaves().len(),
            forall|i: int| 0 <= i < out@.len() ==> *#[trigger] out@[i] == self.leaves()[i],
    {
        let mut out: Vec<&Window> = Vec::new();
        self.collect(&mut out);
        out
    }

    /// Copies of the windows in tree order.
    pub fn copies(&self) -> (out: Vec<Window>)
        ensures
            out@ == self.leaves(),
    {
        let windows: Vec<&Window> = self.windows();
        let mut out: Vec<Window> = Vec::new();
        let mut i: usize = 0;
        while i < windows.len()
            invariant
                i <= windows@.len() == self.leaves().len(),
                forall|j: int|
                    0 <= j < windows@.len() ==> *#[trigger] windows@[j] == self.leaves()[j],
                out@ == self.leaves().take(i as int),
            decreases windows@.len() - i,
        {
            out.push(*windows[i]);
            assert(self.leaves().take(i + 1) =~= self.leaves().take(i as int).push(
                self.leaves()[i as int],
            ));
            i += 1;
        }
        assert(self.leaves().take(i as int) =~= self.leaves());
        out
    }

    fn collect<'a>(&'a self, out: &mut Vec<&'a Window>)
        ensures
            final(out)@.len() == old(out)@.len() + self.leaves().len(),
            forall|i: int| 0 <= i < old(out)@.len() ==> final(out)@[i] == old(out)@[i],
            forall|i: int|
                0 <= i < self.leaves().len() ==> *final(out)@[old(out)@.len() + i]
                    == #[trigger] self.leaves()[i],
        decreases self,
    {
        match self {
            WindowTree::Leaf(w) => out.push(w),
            WindowTree::Split { a, b, .. } => {
                let ghost before = out@;
                a.collect(out);
                let ghost middle = out@;
                b.collect(out);
                proof {
                    let n = a.leaves().len();
                    assert forall|i: int| 0 <= i < self.leaves().len() implies *out@[before.len()
                        + i] == #[trigger] self.leaves()[i] by {
                        if i < n {
                            assert(self.leaves()[i] == a.leaves()[i]);
                            assert(out@[before.len() + i] == middle[before.len() + i]);
                        } else {
                            assert(self.leaves()[i] == b.leaves()[i - n]);
                            assert(*out@[middle.len() + (i - n)] == b.leaves()[i - n]);
                        }
                    }
                }
            },
        }
    }

    /// The tree with every window marked for a repaint.
    pub open spec fn dirtied(self) -> WindowTree
        decreases self,
    {
        match self {
            WindowTree::Leaf(w) => WindowTree::Leaf(Window { dirty: true, ..w }),
            WindowTree::Split { axis, a, b, ratio } => WindowTree::Split {
                axis,
                a: Box::new(a.dirtied()),
                b: Box::new(b.dirtied()),
                ratio,
            },
        }
    }

    /// Marking for a repaint keeps the windows and their order.
    pub proof fn lemma_dirtied(self)
        ensures
            self.dirtied().leaves().len() == self.leaves().len(),
            forall|i: int|
                0 <= i < self.leaves().len() ==> #[trigger] self.dirtied().leaves()[i] == (Window {
                    dirty: true,
                    ..self.leaves()[i]
                }),
        decreases self,
    {
        match self {
            WindowTree::Leaf(_) => {},
            WindowTree::Split { a, b, .. } => {
                a.lemma_dirtied();
                b.lemma_dirtied();
                let n = a.leaves().len();
                assert forall|i: int| 0 <= i < self.leaves().len() implies #[trigger] self.dirtied(
                ).leaves()[i] == (Window { dirty: true, ..self.leaves()[i] }) by {
                    if i < n {
                        assert(self.dirtied().leaves()[i] == a.dirtied().leaves()[i]);
                    } else {
                        assert(self.dirtied().leaves()[i] == b.dirtied().leaves()[i - n]);
                    }
                }
            },
        }
    }

    /// Mark every window for a repaint.
    pub fn mark_all_dirty(&mut self)
        ensures
            *final(self) == old(self).dirtied(),
        decreases *old(self),
    {
        match self {
            WindowTree::Leaf(w) => {
                w.dirty = true;
            },
            WindowTree::Split { a, b, .. } => {
                a.mark_all_dirty();
                b.mark_all_dirty();
            },
        }
    }

    /// The tree with nothing of its windows on screen.
    pub open spec fn wiped(self) -> WindowTree
        decreases self,
    {
        match self {
            WindowTree::Leaf(w) => WindowTree::Leaf(
                Window { dirty: true, last_rect: None, last_sixel_rows: 0, ..w },
            ),
            WindowTree::Split { axis, a, b, ratio } => WindowTree::Split {
                axis,
                a: Box::new(a.wiped()),
                b: Box::new(b.wiped()),
                ratio,
            },
        }
    }

    /// Wiping the screen keeps the windows and their order.
    pub proof fn lemma_wiped(self)
        ensures
            self.wiped().leaves().len() == self.leaves().len(),
            forall|i: int|
                0 <= i < self.leaves().len() ==> #[trigger] self.wiped().leaves()[i] == (Window {
                    dirty: true,
                    last_rect: None,
                    last_sixel_rows: 0,
                    ..self.leaves()[i]
                }),
        decreases self,
    {
        match self {
            WindowTree::Leaf(_) => {},
            WindowTree::Split { a, b, .. } => {
                a.lemma_wiped();
                b.lemma_wiped();
                let n = a.leaves().len();
                assert forall|i: int| 0 <= i < self.leaves().len() implies #[trigger] self.wiped(
                ).leaves()[i] == (Window {
                    dirty: true,
                    last_rect: None,
                    last_sixel_rows: 0,
                    ..self.leaves()[i]
                }) by {
                    if i < n {
                        assert(self.wiped().leaves()[i] == a.wiped().leaves()[i]);
                    } else {
                        assert(self.wiped().leaves()[i] == b.wiped().leaves()[i - n]);
                    }
                }
            },
        }
    }

    /// Forget what is on screen.
    pub fn wipe(&mut self)
        ensures
            *final(self) == old(self).wiped(),
        decreases *old(self),
    {
        match self {
            WindowTree::Leaf(w) => {
                w.dirty = true;
                w.last_rect = None;
                w.last_sixel_rows = 0;
            },
            WindowTree::Split { a, b, .. } => {
                a.wipe();
                b.wipe();
            },
        }
    }

    /// The tree with the screen of every window that is laid out set to its
    /// rectangle, less one row for its title.
    pub open spec fn fitted(
        self,
        layout: Seq<(WindowId, CellRect)>,
        cell_w: u16,
        cell_h: u16,
    ) -> WindowTree
        decreases self,
    {
        match self {
            WindowTree::Leaf(w) => WindowTree::Leaf(
                match entry(layout, w.id) {
                    Some(i) => fitted_window(w, layout[i].1, cell_w, cell_h),
                    None => w,
                },
            ),
            WindowTree::Split { axis, a, b, ratio } => WindowTree::Split {
                axis,
                a: Box::new(a.fitted(layout, cell_w, cell_h)),
                b: Box::new(b.fitted(layout, cell_w, cell_h)),
                ratio,
            },
        }
    }

    /// Fitting changes only viewports, and keeps the windows and their order.
    pub proof fn lemma_fitted(
        self,
        layout: Seq<(WindowId, CellRect)>,
        cell_w: u16,
        cell_h: u16,
    )
        ensures
            self.fitted(layout, cell_w, cell_h).leaves().len() == self.leaves().len(),
            forall|i: int|
                0 <= i < self.leaves().len() ==> {
                    let x = #[trigger] self.fitted(layout, cell_w, cell_h).leaves()[i];
                    let y = self.leaves()[i];
                    x.id == y.id && x.buffer == y.buffer && x.alternate == y.alternate
                },
        decreases self,
    {
        match self {
            WindowTree::Leaf(_) => {},
            WindowTree::Split { a, b, .. } => {
                a.lemma_fitted(layout, cell_w, cell_h);
                b.lemma_fitted(layout, cell_w, cell_h);
                let n = a.leaves().len();
                let now = self.fitted(layout, cell_w, cell_h).leaves();
                assert forall|i: int| 0 <= i < self.leaves().len() implies {
                    let x = #[trigger] now[i];
                    let y = self.leaves()[i];
                    x.id == y.id && x.buffer == y.buffer && x.alternate == y.alternate
                } by {
                    if i < n {
                        assert(now[i] == a.fitted(layout, cell_w, cell_h).leaves()[i]);
                    } else {
                        assert(now[i] == b.fitted(layout, cell_w, cell_h).leaves()[i - n]);
                    }
                }
            },
        }
    }

    /// Set the screen of every window that is laid out to its rectangle.
    pub fn fit(&mut self, layout: &Vec<(WindowId, CellRect)>, cell_w: u16, cell_h: u16)
        ensures
            *final(self) == old(self).fitted(layout@, cell_w, cell_h),
        decreases *old(self),
    {
        match self {
            WindowTree::Leaf(w) => {
                proof {
                    lemma_entry(layout@, w.id);
                }
                let n: usize = layout.len();
                let mut i: usize = 0;
                let id: WindowId = w.id;
                while i < n && layout[i].0 != id
                    invariant
                        i <= n == layout@.len(),
                        forall|k: int| 0 <= k < i ==> (#[trigger] layout@[k]).0 != id,
                    decreases n - i,
                {
                    i += 1;
                }
                if i < n {
                    let r: CellRect = layout[i].1;
                    let rows: u32 = if r.rows < 2 {
                        1
                    } else {
                        (r.rows - 1) as u32
                    };
                    proof {
                        lemma_cells_fit(r.cols, cell_w);
                        lemma_cells_fit(rows as u16, cell_h);
                    }
                    let px_w: u32 = r.cols as u32 * cell_w as u32;
                    let px_h: u32 = rows * cell_h as u32;
                    w.viewport.screen_w = if px_w < 1 {
                        1
                    } else {
                        px_w
                    };
                    w.viewport.screen_h = if px_h < 1 {
                        1
                    } else {
                        px_h
                    };
                    w.dirty = true;
                }
            },
            WindowTree::Split { a, b, .. } => {
                a.fit(layout, cell_w, cell_h);
                b.fit(layout, cell_w, cell_h);
            },
        }
    }

    /// Insert a split on the window identified by `id`. The existing window
    /// stays on the `a` side; `new_window` becomes the `b` side (bottom for
    /// horizontal, right for vertical).
    ///
    /// Returns `true` if the split was applied.
    pub fn split(&mut self, id: WindowId, axis: Axis, new_window: Window) -> (applied: bool)
        ensures
            match old(self).split_at(id, axis, new_window) {
                Some(t) => applied && *final(self) == t,
                None => !applied && *final(self) == *old(self),
            },
        decreases *old(self),
    {
        match self {
            WindowTree::Leaf(w) => {
                if w.id == id {
                    let kept = *w;
                    *self =
                    WindowTree::Split {
                        axis,
                        a: Box::new(WindowTree::Leaf(kept)),
                        b: Box::new(WindowTree::Leaf(new_window)),
                        ratio: Real32 { bits: ONE_HALF },
                    };
                    true
                } else {
                    false
                }
            },
            WindowTree::Split { a, b, .. } => {
                if a.split(id, axis, new_window) {
                    true
                } else {
                    b.split(id, axis, new_window)
                }
            },
        }
    }

    /// Remove the window identified by `id`. Its sibling takes its place, and
    /// focus should move to the sibling's first window. A lone window is not
    /// removed: the caller is expected to close the tab in that case.
    pub fn close(&mut self, id: WindowId) -> (outcome: CloseOutcome)
        ensures
            match old(self).without(id) {
                Some((t, focus)) => *final(self) == t && outcome == (CloseOutcome::Closed {
                    new_focus: focus,
                }),
                None => *final(self) == *old(self) && outcome == (if old(self).is_leaf(id) {
                    CloseOutcome::LastWindow
                } else {
                    CloseOutcome::NotFound
                }),
            },
    {
        if self.this_is(id) {
            return CloseOutcome::LastWindow;
        }
        match self.close_in(id) {
            Some(new_focus) => CloseOutcome::Closed { new_focus },
            None => CloseOutcome::NotFound,
        }
    }

    fn this_is(&self, id: WindowId) -> (b: bool)
        ensures
            b == self.is_leaf(id),
    {
        match self {
            WindowTree::Leaf(w) => w.id == id,
            WindowTree::Split { .. } => false,
        }
    }

    fn close_in(&mut self, id: WindowId) -> (focus: Option<WindowId>)
        ensures
            match old(self).without(id) {
                Some((t, f)) => *final(self) == t && focus == Some(f),
                None => *final(self) == *old(self) && focus is None,
            },
        decreases *old(self),
    {
        let ghost start = *self;
        let mut taken: WindowTree = self.first_leaf();
        match self {
            WindowTree::Leaf(_) => {
                return None;
            },
            WindowTree::Split { a, b, .. } => {
                // If a child is the window itself, the other child takes the
                // place of the whole split.
                if a.this_is(id) {
                    std::mem::swap(&mut taken, &mut **b);
                } else if b.this_is(id) {
                    std::mem::swap(&mut taken, &mut **a);
                } else {
                    let in_a = a.close_in(id);
                    return match in_a {
                        Some(f) => Some(f),
                        None => b.close_in(id),
                    };
                }
            },
        }
        let focus: WindowId = taken.first_id();
        *self = taken;
        Some(focus)
    }

    /// A tree that holds the first window alone.
    fn first_leaf(&self) -> (t: WindowTree)
        ensures
            t == WindowTree::Leaf(self.leaves()[0]),
        decreases self,
    {
        match self {
            WindowTree::Leaf(w) => WindowTree::Leaf(*w),
            WindowTree::Split { a, .. } => {
                proof {
                    a.lemma_some_leaf();
                }
                a.first_leaf()
            },
        }
    }

    /// First window, used after `:only` etc.
    pub fn first_id(&self) -> (id: WindowId)
        ensures
            id == self.leaves()[0].id,
        decreases self,
    {
        match self {
            WindowTree::Leaf(w) => w.id,
            WindowTree::Split { a, .. } => {
                proof {
                    a.lemma_some_leaf();
                }
                a.first_id()
            },
        }
    }

    /// A tree is never empty.
    pub proof fn lemma_some_leaf(self)
        ensures
            self.leaves().len() > 0,
        decreases self,
    {
        match self {
            WindowTree::Leaf(_) => {},
            WindowTree::Split { a, .. } => {
                a.lemma_some_leaf();
            },
        }
    }

    /// Reset all split ratios to one half.
    pub fn equalize(&mut self)
        ensures
            *final(self) == old(self).equalized(),
        decreases *old(self),
    {
        match self {
            WindowTree::Leaf(_) => {},
            WindowTree::Split { a, b, ratio, .. } => {
                *ratio = Real32 { bits: ONE_HALF };
                a.equalize();
                b.equalize();
            },
        }
    }

    /// Adjust the ratio of the nearest ancestor split along `axis`.
    ///
    /// `nudged(ratio, delta, total)` is the ratio moved by `delta` cells out
    /// of `total`; the result is kept between one tenth and nine tenths.
    pub fn resize<F: Fn(Real32, i32, u16) -> Real32>(
        &mut self,
        id: WindowId,
        axis: Axis,
        delta_cells: i32,
        total: u16,
        nudged: &F,
    )
        requires
            forall|r: Real32| call_requires(nudged, (r, delta_cells, total)),
        ensures
            total == 0 || old(self).ratio_over(id, axis) is None ==> *final(self) == *old(self),
            total > 0 ==> (old(self).ratio_over(id, axis) matches Some(ratio) ==> exists|
                sum: Real32,
            |
                #[trigger] call_ensures(nudged, (ratio, delta_cells, total), sum) && *final(self)
                    == old(self).with_ratio(
                    id,
                    axis,
                    sum.clamped(Real32 { bits: ONE_TENTH }, Real32 { bits: NINE_TENTHS }),
                )),
    {
        if total == 0 {
            return ;
        }
        match self.find_ratio(id, axis) {
            None => {},
            Some(ratio) => {
                let sum: Real32 = nudged(ratio, delta_cells, total);
                self.set_ratio(
                    id,
                    axis,
                    sum.clamp(Real32 { bits: ONE_TENTH }, Real32 { bits: NINE_TENTHS }),
                );
            },
        }
    }

    fn find_ratio(&self, id: WindowId, axis: Axis) -> (r: Option<Real32>)
        ensures
            r == self.ratio_over(id, axis),
        decreases self,
    {
        match self {
            WindowTree::Leaf(_) => None,
            WindowTree::Split { axis: this, a, b, ratio } => {
                if self.find(id).is_none() {
                    return None;
                }
                let below = if a.find(id).is_some() {
                    a.find_ratio(id, axis)
                } else {
                    b.find_ratio(id, axis)
                };
                if below.is_none() && *this == axis {
                    Some(*ratio)
                } else {
                    below
                }
            },
        }
    }

    fn set_ratio(&mut self, id: WindowId, axis: Axis, new_ratio: Real32)
        ensures
            *final(self) == old(self).with_ratio(id, axis, new_ratio),
        decreases *old(self),
    {
        if self.find(id).is_none() {
            return ;
        }
        match self {
            WindowTree::Leaf(_) => {},
            WindowTree::Split { axis: this, a, b, ratio } => {
                let in_a: bool = a.find(id).is_some();
                if in_a && a.find_ratio(id, axis).is_some() {
                    a.set_ratio(id, axis, new_ratio);
                } else if !in_a && b.find_ratio(id, axis).is_some() {
                    b.set_ratio(id, axis, new_ratio);
                } else if *this == axis {
                    *ratio = new_ratio;
                }
            },
        }
    }

    /// Cycle focus through the windows in tree order; `reverse` goes the
    /// other way.
    pub fn focus_cycle(&self, focused: WindowId, reverse: bool) -> (r: Option<WindowId>)
        requires
            self.leaves().len() < usize::MAX,
        ensures
            r == self.cycled(focused, reverse),
    {
        let windows: Vec<&Window> = self.windows();
        let n: usize = windows.len();
        let mut i: usize = 0;
        proof {
            lemma_position(self.leaves(), focused);
        }
        while i < n && windows[i].id != focused
            invariant
                i <= n,
                n == windows@.len() == self.leaves().len(),
                forall|k: int| 0 <= k < n ==> *#[trigger] windows@[k] == self.leaves()[k],
                forall|k: int| 0 <= k < i ==> (#[trigger] self.leaves()[k]).id != focused,
            decreases n - i,
        {
            assert(*windows@[i as int] == self.leaves()[i as int]);
            i += 1;
        }
        if i == n {
            return None;
        }
        assert(*windows@[i as int] == self.leaves()[i as int]);
        let next: usize = if reverse {
            if i == 0 {
                n - 1
            } else {
                i - 1
            }
        } else if i + 1 == n {
            0
        } else {
            i + 1
        };
        proof {
            let m = n as int;
            if reverse {
                if i > 0 {
                    assert((i + m - 1) % m == i - 1) by (nonlinear_arith)
                        requires
                            0 < i < m,
                    ;
                } else {
                    assert((m - 1) % m == m - 1) by (nonlinear_arith)
                        requires
                            0 < m,
                    ;
                }
            } else {
                if i + 1 < m {
                    assert((i + 1) % m == i + 1) by (nonlinear_arith)
                        requires
                            0 <= i,
                            i + 1 < m,
                    ;
                } else {
                    assert(m % m == 0) by (nonlinear_arith)
                        requires
                            0 < m,
                    ;
                }
            }
        }
        Some(windows[next].id)
    }

    /// `out` is how the windows divide `rect`: a window takes all of it; a
    /// split cuts it at its first child's share, and what is left empty shows
    /// nothing.
    pub open spec fn laid_out<F: Fn(u16, Real32) -> u16>(
        self,
        rect: CellRect,
        share: &F,
        out: Seq<(WindowId, CellRect)>,
    ) -> bool
        decreases self,
    {
        if rect.empty() {
            out.len() == 0
        } else {
            match self {
                WindowTree::Leaf(w) => out == seq![(w.id, rect)],
                WindowTree::Split { axis, a, b, ratio } => exists|raw: u16, k: int|
                    {
                        let n = cut(extent(rect, axis), raw);
                        &&& #[trigger] call_ensures(
                            share,
                            (extent(rect, axis), bounded_ratio(ratio)),
                            raw,
                        )
                        &&& 0 <= k <= out.len()
                        &&& a.laid_out(before_cut(rect, axis, n), share, #[trigger] out.take(k))
                        &&& b.laid_out(after_cut(rect, axis, n), share, out.skip(k))
                    },
            }
        }
    }

    /// Cell rectangle of every window.
    ///
    /// `share(total, ratio)` is the number of cells that a ratio takes of
    /// `total`, rounded; a split never gives one child all of them where
    /// there are two.
    pub fn layout<F: Fn(u16, Real32) -> u16>(&self, rect: CellRect, share: &F) -> (out: Vec<
        (WindowId, CellRect),
    >)
        requires
            rect.on_grid(),
            forall|total: u16, ratio: Real32| call_requires(share, (total, ratio)),
        ensures
            self.laid_out(rect, share, out@),
    {
        let mut out: Vec<(WindowId, CellRect)> = Vec::new();
        self.layout_into(rect, share, &mut out);
        assert(out@.skip(0) == out@);
        out
    }

    fn layout_into<F: Fn(u16, Real32) -> u16>(
        &self,
        rect: CellRect,
        share: &F,
        out: &mut Vec<(WindowId, CellRect)>,
    )
        requires
            rect.on_grid(),
            forall|total: u16, ratio: Real32| call_requires(share, (total, ratio)),
        ensures
            old(out)@.len() <= final(out)@.len(),
            final(out)@.take(old(out)@.len() as int) == old(out)@,
            self.laid_out(rect, share, final(out)@.skip(old(out)@.len() as int)),
        decreases self,
    {
        let ghost start = out@.len() as int;
        if rect.is_empty() {
            return ;
        }
        match self {
            WindowTree::Leaf(w) => {
                out.push((w.id, rect));
                assert(out@.skip(start) == seq![(w.id, rect)]);
            },
            WindowTree::Split { axis, a, b, ratio } => {
                let total: u16 = match axis {
                    Axis::Horizontal => rect.rows,
                    Axis::Vertical => rect.cols,
                };
                let raw: u16 = share(
                    total,
                    ratio.clamp(
                        Real32 { bits: ONE_TWENTIETH },
                        Real32 { bits: NINETEEN_TWENTIETHS },
                    ),
                );
                let most: u16 = if total > 2 {
                    total - 1
                } else {
                    1
                };
                let n: u16 = if raw < 1 {
                    1
                } else if raw > most {
                    most
                } else {
                    raw
                };
                let (first, second): (CellRect, CellRect) = match axis {
                    Axis::Horizontal => (
                        CellRect { col: rect.col, row: rect.row, cols: rect.cols, rows: n },
                        CellRect {
                            col: rect.col,
                            row: rect.row + n,
                            cols: rect.cols,
                            rows: rect.rows - n,
                        },
                    ),
                    Axis::Vertical => (
                        CellRect { col: rect.col, row: rect.row, cols: n, rows: rect.rows },
                        CellRect {
                            col: rect.col + n,
                            row: rect.row,
                            cols: rect.cols - n,
                            rows: rect.rows,
                        },
                    ),
                };
                let ghost before = out@;
                a.layout_into(first, share, out);
                let ghost middle = out@;
                b.layout_into(second, share, out);
                proof {
                    let part = out@.skip(start);
                    let k = middle.len() - start;
                    assert(out@.take(start) == before) by {
                        assert(out@.take(middle.len() as int).take(start) == out@.take(start));
                    }
                    assert(part.take(k) == middle.skip(start)) by {
                        assert(out@.take(middle.len() as int).skip(start) == part.take(k));
                    }
                    assert(part.skip(k) == out@.skip(middle.len() as int));
                    assert(first == before_cut(rect, *axis, n as int));
                    assert(second == after_cut(rect, *axis, n as int));
                    assert(call_ensures(share, (extent(rect, *axis), bounded_ratio(*ratio)), raw));
                    assert(self.laid_out(rect, share, part));
                }
            },
        }
    }

    /// Pick the nearest window in `dir` relative to the focused one. `None`
    /// if `focused` is not shown or nothing lies in that direction.
    pub fn focus_neighbour<F: Fn(u16, Real32) -> u16>(
        &self,
        focused: WindowId,
        dir: Direction,
        rect: CellRect,
        share: &F,
    ) -> (r: Option<WindowId>)
        requires
            rect.on_grid(),
            forall|total: u16, ratio: Real32| call_requires(share, (total, ratio)),
        ensures
            exists|out: Seq<(WindowId, CellRect)>| #[trigger]
                self.laid_out(rect, share, out) && is_neighbour(out, focused, dir, r),
    {
        let layout: Vec<(WindowId, CellRect)> = self.layout(rect, share);
        neighbour_in(&layout, focused, dir)
    }

    /// Splitting applies exactly where the tree has the window, and puts the
    /// new window right behind it; all others keep their order.
    pub proof fn lemma_split_inserts(self, id: WindowId, axis: Axis, new_window: Window)
        ensures
            match position(self.leaves(), id) {
                Some(i) => self.split_at(id, axis, new_window) matches Some(t) && t.leaves()
                    == self.leaves().insert(i + 1, new_window),
                None => self.split_at(id, axis, new_window) is None,
            },
        decreases self,
    {
        match self {
            WindowTree::Leaf(w) => {
                reveal_with_fuel(position, 2);
                if w.id == id {
                    let t = self.split_at(id, axis, new_window)->0;
                    reveal_with_fuel(WindowTree::leaves, 2);
                    assert(t.leaves() =~= self.leaves().insert(1, new_window));
                }
            },
            WindowTree::Split { a, b, .. } => {
                lemma_position_concat(a.leaves(), b.leaves(), id);
                lemma_position(a.leaves(), id);
                lemma_position(b.leaves(), id);
                a.lemma_split_inserts(id, axis, new_window);
                b.lemma_split_inserts(id, axis, new_window);
                if let Some(i) = position(self.leaves(), id) {
                    let t = self.split_at(id, axis, new_window)->0;
                    assert(t.leaves() =~= self.leaves().insert(i + 1, new_window));
                }
            },
        }
    }

    /// Closing works on exactly the windows below a split. It removes that
    /// window, keeps the order of the others, and hands focus to one of them.
    pub proof fn lemma_close_removes(self, id: WindowId)
        requires
            distinct(self.leaves()),
        ensures
            match position(self.leaves(), id) {
                Some(i) => if self is Split {
                    &&& self.without(id) matches Some((t, focus))
                    &&& t.leaves() == self.leaves().remove(i)
                    &&& t.has(focus)
                } else {
                    self.without(id) is None && self.is_leaf(id)
                },
                None => self.without(id) is None && !self.is_leaf(id),
            },
        decreases self,
    {
        lemma_position(self.leaves(), id);
        match self {
            WindowTree::Leaf(w) => {},
            WindowTree::Split { a, b, .. } => {
                let x = a.leaves();
                let y = b.leaves();
                lemma_position_concat(x, y, id);
                lemma_position(x, id);
                lemma_position(y, id);
                assert(distinct(x)) by {
                    assert forall|i: int, j: int|
                        0 <= i < x.len() && 0 <= j < x.len() && i != j implies #[trigger] x[i].id
                        != #[trigger] x[j].id by {
                        assert((x + y)[i] == x[i] && (x + y)[j] == x[j]);
                    }
                }
                assert(distinct(y)) by {
                    assert forall|i: int, j: int|
                        0 <= i < y.len() && 0 <= j < y.len() && i != j implies #[trigger] y[i].id
                        != #[trigger] y[j].id by {
                        assert((x + y)[x.len() + i] == y[i] && (x + y)[x.len() + j] == y[j]);
                    }
                }
                assert(position(x, id) is None || position(y, id) is None) by {
                    if position(x, id) is Some && position(y, id) is Some {
                        let i = position(x, id)->0;
                        let j = position(y, id)->0;
                        assert((x + y)[i] == x[i]);
                        assert((x + y)[x.len() + j] == y[j]);
                    }
                }
                a.lemma_close_removes(id);
                b.lemma_close_removes(id);
                a.lemma_some_leaf();
                b.lemma_some_leaf();
                if a.is_leaf(id) {
                    assert(x[0].id == id);
                    assert(position(x, id) == Some(0int));
                    assert(y =~= (x + y).remove(0));
                    lemma_first_has(y);
                } else if b.is_leaf(id) {
                    assert(y[0].id == id);
                    assert(position(y, id) == Some(0int));
                    assert(x =~= (x + y).remove(x.len() as int));
                    lemma_first_has(x);
                } else if let Some(i) = position(x, id) {
                    let (t, focus) = a.without(id)->0;
                    assert(t.leaves() + y =~= (x + y).remove(i));
                    lemma_position_concat(t.leaves(), y, focus);
                } else if let Some(i) = position(y, id) {
                    let (t, focus) = b.without(id)->0;
                    assert(x + t.leaves() =~= (x + y).remove(i + x.len()));
                    lemma_position_concat(x, t.leaves(), focus);
                }
            },
        }
    }

    /// Closing the window that a split has just opened gives back the tree as
    /// it was, with focus on the window that was split.
    pub proof fn lemma_close_undoes_split(self, id: WindowId, axis: Axis, new_window: Window)
        requires
            self.has(id),
            !self.has(new_window.id),
        ensures
            self.split_at(id, axis, new_window) matches Some(t) && t.without(new_window.id)
                == Some((self, id)),
        decreases self,
    {
        let n = new_window.id;
        self.lemma_split_inserts(id, axis, new_window);
        self.lemma_without_absent(n);
        match self {
            WindowTree::Leaf(w) => {
                reveal_with_fuel(position, 2);
                reveal_with_fuel(WindowTree::without, 2);
            },
            WindowTree::Split { a, b, .. } => {
                lemma_position_concat(a.leaves(), b.leaves(), id);
                lemma_position_concat(a.leaves(), b.leaves(), n);
                a.lemma_split_inserts(id, axis, new_window);
                b.lemma_split_inserts(id, axis, new_window);
                lemma_position(a.leaves(), n);
                lemma_position(b.leaves(), n);
                if a.has(id) {
                    a.lemma_close_undoes_split(id, axis, new_window);
                    a.lemma_split_is_split(id, axis, new_window);
                } else {
                    b.lemma_close_undoes_split(id, axis, new_window);
                    b.lemma_split_is_split(id, axis, new_window);
                    a.lemma_without_absent(n);
                }
                b.lemma_leaf_has(n);
                a.lemma_leaf_has(n);
            },
        }
    }

    proof fn lemma_split_is_split(self, id: WindowId, axis: Axis, new_window: Window)
        ensures
            self.split_at(id, axis, new_window) matches Some(t) ==> t is Split,
    {
    }

    proof fn lemma_leaf_has(self, id: WindowId)
        ensures
            self.is_leaf(id) ==> self.has(id),
    {
        reveal_with_fuel(position, 2);
    }

    /// Nothing can be closed that is not there.
    proof fn lemma_without_absent(self, id: WindowId)
        requires
            !self.has(id),
        ensures
            self.without(id) is None,
        decreases self,
    {
        match self {
            WindowTree::Leaf(_) => {},
            WindowTree::Split { a, b, .. } => {
                lemma_position_concat(a.leaves(), b.leaves(), id);
                a.lemma_without_absent(id);
                b.lemma_without_absent(id);
                a.lemma_leaf_has(id);
                b.lemma_leaf_has(id);
            },
        }
    }

    /// Neither equalizing nor resizing touches a window.
    pub proof fn lemma_ratios_keep_windows(self, id: WindowId, axis: Axis, ratio: Real32)
        ensures
            self.equalized().leaves() == self.leaves(),
            self.with_ratio(id, axis, ratio).leaves() == self.leaves(),
        decreases self,
    {
        match self {
            WindowTree::Leaf(_) => {},
            WindowTree::Split { a, b, .. } => {
                a.lemma_ratios_keep_windows(id, axis, ratio);
                b.lemma_ratios_keep_windows(id, axis, ratio);
            },
        }
    }

    /// Replacing a window leaves all others as they are.
    pub proof fn lemma_with_leaf(self, i: int, w: Window)
        requires
            0 <= i < self.leaves().len(),
        ensures
            self.with_leaf(i, w).leaves() == self.leaves().update(i, w),
        decreases self,
    {
        match self {
            WindowTree::Leaf(_) => {
                assert(self.with_leaf(i, w).leaves() =~= self.leaves().update(i, w));
            },
            WindowTree::Split { a, b, .. } => {
                if i < a.leaves().len() {
                    a.lemma_with_leaf(i, w);
                } else {
                    b.lemma_with_leaf(i - a.leaves().len(), w);
                }
                assert(self.with_leaf(i, w).leaves() =~= self.leaves().update(i, w));
            },
        }
    }

    /// Windows tile the rectangle: every cell of it belongs to exactly one of
    /// them, and none reaches outside.
    pub proof fn lemma_layout_tiles<F: Fn(u16, Real32) -> u16>(
        self,
        rect: CellRect,
        share: &F,
        out: Seq<(WindowId, CellRect)>,
    )
        requires
            rect.on_grid(),
            self.laid_out(rect, share, out),
        ensures
            forall|col: int, row: int|
                rect.covers(col, row) ==> exists|i: int|
                    0 <= i < out.len() && (#[trigger] out[i]).1.covers(col, row),
            forall|i: int, col: int, row: int|
                0 <= i < out.len() && #[trigger] out[i].1.covers(col, row) ==> rect.covers(col, row),
            forall|i: int, j: int, col: int, row: int|
                0 <= i < j < out.len() && #[trigger] out[i].1.covers(col, row)
                    ==> !(#[trigger] out[j].1.covers(col, row)),
            forall|i: int| 0 <= i < out.len() ==> !(#[trigger] out[i]).1.empty(),
        decreases self,
    {
        if !rect.empty() {
            match self {
                WindowTree::Leaf(w) => {
                    assert(out[0].1 == rect);
                },
                WindowTree::Split { axis, a, b, ratio } => {
                    let (raw, k) = choose|raw: u16, k: int|
                        {
                            let n = cut(extent(rect, axis), raw);
                            &&& #[trigger] call_ensures(
                                share,
                                (extent(rect, axis), bounded_ratio(ratio)),
                                raw,
                            )
                            &&& 0 <= k <= out.len()
                            &&& a.laid_out(before_cut(rect, axis, n), share, #[trigger] out.take(k))
                            &&& b.laid_out(after_cut(rect, axis, n), share, out.skip(k))
                        };
                    let n = cut(extent(rect, axis), raw);
                    let first = before_cut(rect, axis, n);
                    let second = after_cut(rect, axis, n);
                    let x = out.take(k);
                    let y = out.skip(k);
                    a.lemma_layout_tiles(first, share, x);
                    b.lemma_layout_tiles(second, share, y);
                    assert forall|i: int| k <= i < out.len() implies out[i] == y[i - k] by {}
                    assert forall|i: int| 0 <= i < k implies out[i] == x[i] by {}
                    assert forall|col: int, row: int| rect.covers(col, row) implies exists|i: int|
                        0 <= i < out.len() && (#[trigger] out[i]).1.covers(col, row) by {
                        if first.covers(col, row) {
                            let i = choose|i: int|
                                0 <= i < x.len() && (#[trigger] x[i]).1.covers(col, row);
                            assert(out[i].1.covers(col, row));
                        } else {
                            assert(second.covers(col, row));
                            let i = choose|i: int|
                                0 <= i < y.len() && (#[trigger] y[i]).1.covers(col, row);
                            assert(out[i + k].1.covers(col, row));
                        }
                    }
                },
            }
        }
    }

    /// In a rectangle with any cells the first window is shown, and first.
    pub proof fn lemma_layout_shows_first<F: Fn(u16, Real32) -> u16>(
        self,
        rect: CellRect,
        share: &F,
        out: Seq<(WindowId, CellRect)>,
    )
        requires
            rect.on_grid(),
            !rect.empty(),
            self.laid_out(rect, share, out),
        ensures
            out.len() > 0,
            out[0].0 == self.leaves()[0].id,
        decreases self,
    {
        match self {
            WindowTree::Leaf(w) => {},
            WindowTree::Split { axis, a, b, ratio } => {
                let (raw, k) = choose|raw: u16, k: int|
                    {
                        let n = cut(extent(rect, axis), raw);
                        &&& #[trigger] call_ensures(
                            share,
                            (extent(rect, axis), bounded_ratio(ratio)),
                            raw,
                        )
                        &&& 0 <= k <= out.len()
                        &&& a.laid_out(before_cut(rect, axis, n), share, #[trigger] out.take(k))
                        &&& b.laid_out(after_cut(rect, axis, n), share, out.skip(k))
                    };
                let n = cut(extent(rect, axis), raw);
                a.lemma_layout_shows_first(before_cut(rect, axis, n), share, out.take(k));
                a.lemma_some_leaf();
            },
        }
    }

    /// Stepping focus one way and then the other returns to the same window.
    pub proof fn lemma_cycle_returns(self, focused: WindowId, reverse: bool)
        requires
            distinct(self.leaves()),
            self.has(focused),
        ensures
            self.cycled(focused, reverse) matches Some(next) && self.cycled(next, !reverse)
                == Some(focused),
    {
        let leaves = self.leaves();
        let n = leaves.len() as int;
        lemma_position(leaves, focused);
        let i = position(leaves, focused)->0;
        lemma_steps_cancel(n, i);
        let j = if reverse {
            (i + n - 1) % n
        } else {
            (i + 1) % n
        };
        assert(0 <= j < n) by (nonlinear_arith)
            requires
                0 <= i < n,
                j == (i + n - 1) % n || j == (i + 1) % n,
        ;
        lemma_position(leaves, leaves[j].id);
    }
}

} // verus!
