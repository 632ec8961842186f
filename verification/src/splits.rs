//! Splitting, closing and resizing windows, and the tabs they stand in.
use vstd::prelude::*;

use crate::buffer::{Buffer, BufferId};
use crate::number::{Real32, NINE_TENTHS, ONE_TENTH};
use crate::pool;
use crate::viewport::Viewport;
use crate::window::{self, Axis, CloseOutcome, Direction, Window, WindowId, WindowTree};
use crate::workspace::{self, Tab, Workspace};

verus! {

/// The tabs with the windows of one of them marked for a repaint.
pub open spec fn repainted(tabs: Seq<Tab>, i: int) -> Seq<Tab> {
    tabs.update(i, workspace::dirtied(tabs[i]))
}

/// What a split makes of a tab: the new window has the focus.
pub open spec fn split_tab(t: Tab, axis: Axis, w: Window) -> Tab {
    workspace::dirtied(Tab { tree: t.tree.split_at(t.focused, axis, w)->0, focused: w.id })
}

/// The tab that is current after the one at `cur` was taken out.
pub open spec fn next_current(rest: Seq<Tab>, cur: int) -> int {
    if rest.len() > 0 && cur >= rest.len() {
        rest.len() - 1
    } else {
        cur
    }
}

/// The tabs after the one at `cur` was closed.
pub open spec fn tab_closed(tabs: Seq<Tab>, cur: int) -> Seq<Tab> {
    let rest = tabs.remove(cur);
    if rest.len() == 0 {
        rest
    } else {
        repainted(rest, next_current(rest, cur))
    }
}

/// The windows of a tab but the focused one, in order.
pub open spec fn others(t: Tab) -> Seq<Window> {
    t.tree.leaves().remove(window::position(t.tree.leaves(), t.focused)->0)
}

/// Where moving `delta` places from `cur` ends, going round.
pub open spec fn wrapped(cur: int, delta: int, n: int) -> int {
    (cur + delta) % n
}

/// `wrapped`, computed.
pub(crate) fn wrap(cur: usize, delta: i64, n: usize) -> (r: usize)
    requires
        cur < n,
    ensures
        r == wrapped(cur as int, delta as int, n as int),
        r < n,
{
    let sum: i128 = cur as i128 + delta as i128;
    let m: i128 = n as i128;
    if sum >= 0 {
        (sum % m) as usize
    } else {
        let back: i128 = (-sum) % m;
        proof {
            assert((-sum) as int == ((-sum) as int / m as int) * m + back) by {
                vstd::arithmetic::div_mod::lemma_fundamental_div_mod((-sum) as int, m as int);
                vstd::arithmetic::mul::lemma_mul_is_commutative(
                    (-sum) as int / m as int,
                    m as int,
                );
            }
        }
        if back == 0 {
            proof {
                let q = (-sum) as int / m as int;
                assert(sum as int == (-q) * m + 0) by (nonlinear_arith)
                    requires
                        (-sum) as int == q * m + 0,
                ;
                vstd::arithmetic::div_mod::lemma_fundamental_div_mod_converse(
                    sum as int,
                    m as int,
                    -q,
                    0,
                );
            }
            0
        } else {
            proof {
                let q = (-sum) as int / m as int;
                assert(sum as int == (-q - 1) * m + (m - back)) by (nonlinear_arith)
                    requires
                        (-sum) as int == q * m + back,
                ;
                vstd::arithmetic::div_mod::lemma_fundamental_div_mod_converse(
                    sum as int,
                    m as int,
                    -q - 1,
                    (m - back) as int,
                );
            }
            (m - back) as usize
        }
    }
}

/// The current tab is closed; the reader is to quit where it was the last.
pub open spec fn tab_taken<D>(
    before: Workspace<D>,
    after: Workspace<D>,
) -> bool {
    &&& after.tabs@ == tab_closed(before.tabs@, before.current_tab as int)
    &&& after.current_tab == next_current(
        before.tabs@.remove(before.current_tab as int),
        before.current_tab as int,
    )
    &&& after.quit_requested == (before.quit_requested || before.tabs@.len() == 1)
    &&& after.pool.slots@ == workspace::released_by(
        before.pool.slots@,
        before.tab_now().tree.leaves(),
    )
    &&& after.closed@ == before.closed@ + workspace::gone_by(
        before.pool.slots@,
        before.tab_now().tree.leaves(),
    )
    &&& after.same_notes(before)
    &&& after.same_sizes(before)
    &&& after.win_ids == before.win_ids
    &&& after.buf_ids == before.buf_ids
}

/// The focused window is closed, and the tab with its last window.
pub open spec fn window_taken<D>(
    before: Workspace<D>,
    after: Workspace<D>,
) -> bool {
    &&& after.same_notes(before)
    &&& after.same_sizes(before)
    &&& after.win_ids == before.win_ids
    &&& after.buf_ids == before.buf_ids
    &&& after.pool.slots@ == pool::released(
        before.pool.slots@,
        before.focus_now().buffer,
    )
    &&& after.closed@ == (match pool::leaving(
        before.pool.slots@,
        before.focus_now().buffer,
    ) {
        Some(b) => before.closed@.push(b),
        None => before.closed@,
    })
    &&& match before.tab_now().tree.without(before.tab_now().focused) {
        Some((tree, focused)) => {
            &&& after.tabs@ == before.tabs@.update(
                before.current_tab as int,
                workspace::dirtied(Tab { tree, focused }),
            )
            &&& after.current_tab == before.current_tab
            &&& after.quit_requested == before.quit_requested
        },
        None => {
            &&& after.tabs@ == tab_closed(
                before.tabs@,
                before.current_tab as int,
            )
            &&& after.current_tab == next_current(
                before.tabs@.remove(before.current_tab as int),
                before.current_tab as int,
            )
            &&& after.quit_requested == (before.quit_requested
                || before.tabs@.len() == 1)
        },
    }
}

/// Only the focused window of the tab is left.
pub open spec fn alone<D>(
    before: Workspace<D>,
    after: Workspace<D>,
) -> bool {
    &&& after.same_rest(before)
    &&& after.win_ids == before.win_ids
    &&& after.buf_ids == before.buf_ids
    &&& after.current_tab == before.current_tab
    &&& after.tabs@ == before.tabs@.update(
        before.current_tab as int,
        workspace::dirtied(
            Tab {
                tree: WindowTree::Leaf(before.focus_now()),
                focused: before.tab_now().focused,
            },
        ),
    )
    &&& after.pool.slots@ == workspace::released_by(
        before.pool.slots@,
        others(before.tab_now()),
    )
    &&& after.closed@ == before.closed@ + workspace::gone_by(
        before.pool.slots@,
        others(before.tab_now()),
    )
}

/// Only the current tab is left.
pub open spec fn tab_alone<D>(
    before: Workspace<D>,
    after: Workspace<D>,
) -> bool {
    &&& after.same_rest(before)
    &&& after.win_ids == before.win_ids
    &&& after.buf_ids == before.buf_ids
    &&& before.tabs@.len() == 1 ==> after == before
    &&& before.tabs@.len() > 1 ==> {
        let gone = workspace::all_leaves(
            before.tabs@.remove(before.current_tab as int),
        );
        &&& after.tabs@ == seq![workspace::dirtied(before.tab_now())]
        &&& after.current_tab == 0
        &&& after.pool.slots@ == workspace::released_by(before.pool.slots@, gone)
        &&& after.closed@ == before.closed@ + workspace::gone_by(
            before.pool.slots@,
            gone,
        )
    }
}

/// The tab `delta` places further is current.
pub open spec fn turned_to<D>(
    before: Workspace<D>,
    after: Workspace<D>,
    delta: int,
) -> bool {
    &&& after.same_rest(before)
    &&& after.pool == before.pool
    &&& after.closed == before.closed
    &&& after.win_ids == before.win_ids
    &&& after.buf_ids == before.buf_ids
    &&& after.current_tab == wrapped(
        before.current_tab as int,
        delta,
        before.tabs@.len() as int,
    )
    &&& after.tabs@ == repainted(before.tabs@, after.current_tab as int)
}

/// The current tab stands `delta` places further.
pub open spec fn tab_moved<D>(
    before: Workspace<D>,
    after: Workspace<D>,
    delta: int,
) -> bool {
    &&& after.same_rest(before)
    &&& after.pool == before.pool
    &&& after.closed == before.closed
    &&& after.win_ids == before.win_ids
    &&& after.buf_ids == before.buf_ids
    &&& ({
        let from = before.current_tab as int;
        let to = wrapped(from, delta, before.tabs@.len() as int);
        &&& after.current_tab == to
        &&& after.tabs@ == (if to == from {
            before.tabs@
        } else {
            repainted(before.tabs@.remove(from).insert(to, before.tab_now()), to)
        })
    })
}

/// Every split of the tab has two halves.
pub open spec fn evened<D>(
    before: Workspace<D>,
    after: Workspace<D>,
) -> bool {
    &&& after.same_but_tabs(before)
    &&& after.tabs@ == before.tabs@.update(
        before.current_tab as int,
        workspace::dirtied(
            Tab {
                tree: before.tab_now().tree.equalized(),
                focused: before.tab_now().focused,
            },
        ),
    )
}

/// The focused window is `delta` cells larger along `axis`.
pub open spec fn nudged_by<D, F: Fn(Real32, i32, u16) -> Real32>(
    before: Workspace<D>,
    after: Workspace<D>,
    axis: Axis,
    delta: i32,
    nudged: &F,
) -> bool {
    &&& after.same_but_tabs(before)
    &&& ({
        let total = window::extent(before.last_rect, axis);
        let t = before.tab_now();
        &&& total == 0 || t.tree.ratio_over(t.focused, axis) is None
            ==> after.tabs@ == repainted(
            before.tabs@,
            before.current_tab as int,
        )
        &&& total > 0 ==> (t.tree.ratio_over(t.focused, axis) matches Some(ratio)
            ==> exists|sum: Real32|
            #[trigger] call_ensures(nudged, (ratio, delta, total), sum)
                && after.tabs@ == before.tabs@.update(
                before.current_tab as int,
                workspace::dirtied(
                    Tab {
                        tree: t.tree.with_ratio(
                            t.focused,
                            axis,
                            sum.clamped(
                                Real32 { bits: ONE_TENTH },
                                Real32 { bits: NINE_TENTHS },
                            ),
                        ),
                        focused: t.focused,
                    },
                ),
            ))
    })
}

/// The nearest window in a direction has the focus.
pub open spec fn looked<D, F: Fn(u16, Real32) -> u16>(
    before: Workspace<D>,
    after: Workspace<D>,
    dir: Direction,
    share: &F,
) -> bool {
    &&& after.same_but_tabs(before)
    &&& exists|out: Seq<(WindowId, window::CellRect)>, next: Option<WindowId>|
        {
            &&& #[trigger] before.tab_now().tree.laid_out(
                before.last_rect,
                share,
                out,
            )
            &&& #[trigger] window::is_neighbour(
                out,
                before.tab_now().focused,
                dir,
                next,
            )
            &&& after.tabs@ == focused_on(before, next)
        }
}

/// The next window in tree order has the focus, or the one before.
pub open spec fn cycled<D>(
    before: Workspace<D>,
    after: Workspace<D>,
    reverse: bool,
) -> bool {
    &&& after.same_but_tabs(before)
    &&& after.tabs@ == focused_on(
        before,
        before.tab_now().tree.cycled(before.tab_now().focused, reverse),
    )
}

impl<D> Workspace<D> {
    /// A window shows `id` no more; a buffer that goes is kept for saving.
    pub(crate) fn release(&mut self, id: BufferId)
        ensures
            final(self).same_screen(*old(self)),
            final(self).same_sizes(*old(self)),
            final(self).buf_ids == old(self).buf_ids,
            final(self).pool.slots@ == pool::released(old(self).pool.slots@, id),
            final(self).closed@ == (match pool::leaving(old(self).pool.slots@, id) {
                Some(b) => old(self).closed@.push(b),
                None => old(self).closed@,
            }),
    {
        if let Some(b) = self.pool.release(id) {
            self.closed.push(b);
        }
    }

    /// None of these windows shows its buffer any more.
    fn release_windows(&mut self, windows: &Vec<Window>)
        ensures
            final(self).same_screen(*old(self)),
            final(self).same_sizes(*old(self)),
            final(self).buf_ids == old(self).buf_ids,
            final(self).pool.slots@ == workspace::released_by(old(self).pool.slots@, windows@),
            final(self).closed@ == old(self).closed@ + workspace::gone_by(
                old(self).pool.slots@,
                windows@,
            ),
    {
        let ghost before = *self;
        let mut i: usize = 0;
        assert(windows@.take(0) =~= Seq::empty());
        assert(self.closed@ =~= before.closed@ + Seq::<Buffer<D>>::empty());
        while i < windows.len()
            invariant
                i <= windows@.len(),
                self.same_screen(before),
                self.same_sizes(before),
                self.buf_ids == before.buf_ids,
                self.pool.slots@ == workspace::released_by(
                    before.pool.slots@,
                    windows@.take(i as int),
                ),
                self.closed@ == before.closed@ + workspace::gone_by(
                    before.pool.slots@,
                    windows@.take(i as int),
                ),
            decreases windows@.len() - i,
        {
            let ghost t = windows@.take(i + 1);
            assert(t.drop_last() =~= windows@.take(i as int));
            assert(t.last() == windows@[i as int]);
            self.release(windows[i].buffer);
            assert(self.closed@ =~= before.closed@ + workspace::gone_by(before.pool.slots@, t));
            i += 1;
        }
        assert(windows@.take(i as int) =~= windows@);
    }

    /// Close the current tab. The reader is to quit where it was the last.
    pub fn close_current_tab(&mut self)
        requires
            old(self).live(),
        ensures
            final(self).inv(),
            tab_taken(*old(self), *final(self)),
    {
        let ghost before = *self;
        let cur: usize = self.current_tab;
        let windows: Vec<Window> = self.tabs[cur].tree.copies();
        self.release_windows(&windows);
        self.tabs.remove(cur);
        let ghost rest = before.tabs@.remove(cur as int);
        proof {
            let leaves = before.tab_now().tree.leaves();
            assert forall|x: BufferId|
                #[trigger] workspace::shown_count(rest)(x) == workspace::shown_count(
                    before.tabs@,
                )(x) - workspace::showing(leaves, x) by {
                workspace::lemma_sums_remove(before.tabs@, cur as int, x);
            }
            workspace::lemma_sums_remove(before.tabs@, cur as int, BufferId(0));
            workspace::lemma_counts_released_by(
                before.pool.slots@,
                workspace::shown_count(before.tabs@),
                workspace::shown_count(rest),
                before.buf_ids.upcoming,
                leaves,
            );
            assert forall|i: int| 0 <= i < rest.len() implies workspace::tab_ok(
                #[trigger] rest[i],
                before.win_ids.upcoming,
                before.buf_ids.upcoming,
            ) by {
                assert(rest[i] == before.tabs@[if i < cur {
                    i
                } else {
                    i + 1
                }]);
            }
        }
        if self.tabs.len() == 0 {
            self.quit_requested = true;
            return ;
        }
        if self.current_tab >= self.tabs.len() {
            self.current_tab = self.tabs.len() - 1;
        }
        self.mark_all_dirty();
    }

    /// Close the focused window. The tab goes with its last window.
    pub fn close_focused(&mut self)
        requires
            old(self).live(),
        ensures
            final(self).inv(),
            window_taken(*old(self), *final(self)),
    {
        let ghost before = *self;
        let cur: usize = self.current_tab;
        let focused: WindowId = self.tabs[cur].focused;
        let buffer: BufferId = self.focused_window().buffer;
        proof {
            workspace::lemma_focus(before);
            assert(workspace::tab_ok(
                before.tabs@[cur as int],
                before.win_ids.upcoming,
                before.buf_ids.upcoming,
            ));
            before.tab_now().tree.lemma_close_removes(focused);
        }
        let outcome: CloseOutcome = self.tabs[cur].tree.close(focused);
        match outcome {
            CloseOutcome::Closed { new_focus } => {
                self.tabs[cur].focused = new_focus;
                self.release(buffer);
                proof {
                    let t = Tab {
                        tree: (before.tab_now().tree.without(focused)->0).0,
                        focused: new_focus,
                    };
                    let was = before.tab_now().tree.leaves();
                    let at = before.focus_at();
                    assert(self.tabs@ =~= before.tabs@.update(cur as int, t));
                    assert(t.tree.leaves() == was.remove(at));
                    lemma_removed_ok(before, t);
                }
                self.mark_all_dirty();
                assert(self.tabs@ =~= before.tabs@.update(
                    cur as int,
                    workspace::dirtied(
                        Tab {
                            tree: (before.tab_now().tree.without(focused)->0).0,
                            focused: new_focus,
                        },
                    ),
                ));
            },
            CloseOutcome::LastWindow => {
                assert(self.tabs@ =~= before.tabs@);
                proof {
                    let leaves = before.tab_now().tree.leaves();
                    assert(leaves.len() == 1);
                    assert(leaves.drop_last() =~= Seq::empty());
                    reveal_with_fuel(workspace::released_by, 2);
                    reveal_with_fuel(workspace::gone_by, 2);
                    assert(leaves.last() == before.focus_now());
                }
                let ghost closed = self.closed@;
                self.close_current_tab();
                assert(self.closed@ =~= (match pool::leaving(before.pool.slots@, buffer) {
                    Some(b) => closed.push(b),
                    None => closed,
                }));
            },
            CloseOutcome::NotFound => {
                assert(false);
            },
        }
    }

    /// Close every window of the tab but the focused one.
    pub fn only_focused(&mut self)
        requires
            old(self).live(),
        ensures
            final(self).live(),
            alone(*old(self), *final(self)),
    {
        let ghost before = *self;
        let cur: usize = self.current_tab;
        proof {
            workspace::lemma_focus(before);
            assert(workspace::tab_ok(
                before.tabs@[cur as int],
                before.win_ids.upcoming,
                before.buf_ids.upcoming,
            ));
        }
        let kept: Window = self.focused_window();
        let mut windows: Vec<Window> = self.tabs[cur].tree.copies();
        let n: usize = windows.len();
        let mut at: usize = 0;
        let ghost was = before.tab_now().tree.leaves();
        let ghost place = before.focus_at();
        while windows[at].id != kept.id
            invariant
                windows@ == was,
                0 <= place < was.len() == n,
                was[place].id == kept.id,
                at <= place,
            decreases place - at,
        {
            at += 1;
        }
        assert(at == place) by {
            if at < place {
                assert(was[at as int].id != was[place].id);
            }
        }
        windows.remove(at);
        assert(windows@ =~= others(before.tab_now()));
        self.release_windows(&windows);
        self.tabs[cur].tree = WindowTree::leaf(kept);
        proof {
            let t = Tab { tree: WindowTree::Leaf(kept), focused: before.tab_now().focused };
            assert(self.tabs@ =~= before.tabs@.update(cur as int, t));
            assert(t.tree.leaves() =~= seq![kept]);
            reveal_with_fuel(window::position, 2);
            workspace::lemma_sums_update(before.tabs@, cur as int, t, BufferId(0));
            assert forall|x: BufferId|
                #[trigger] workspace::shown_count(self.tabs@)(x) == workspace::shown_count(
                    before.tabs@,
                )(x) - workspace::showing(windows@, x) by {
                workspace::lemma_sums_update(before.tabs@, cur as int, t, x);
                workspace::lemma_showing_remove(was, place, x);
            }
            workspace::lemma_counts_released_by(
                before.pool.slots@,
                workspace::shown_count(before.tabs@),
                workspace::shown_count(self.tabs@),
                before.buf_ids.upcoming,
                windows@,
            );
            assert forall|i: int| 0 <= i < self.tabs@.len() implies workspace::tab_ok(
                #[trigger] self.tabs@[i],
                before.win_ids.upcoming,
                before.buf_ids.upcoming,
            ) by {
                if i != cur {
                    assert(self.tabs@[i] == before.tabs@[i]);
                }
            }
        }
        self.mark_all_dirty();
        assert(self.tabs@ =~= before.tabs@.update(
            cur as int,
            workspace::dirtied(
                Tab { tree: WindowTree::Leaf(kept), focused: before.tab_now().focused },
            ),
        ));
    }

    /// Close every tab but the current one.
    pub fn only_tab(&mut self)
        requires
            old(self).live(),
        ensures
            final(self).live(),
            tab_alone(*old(self), *final(self)),
    {
        if self.tabs.len() <= 1 {
            return ;
        }
        let ghost before = *self;
        let cur: usize = self.current_tab;
        let kept: Tab = self.tabs.remove(cur);
        let ghost rest = before.tabs@.remove(cur as int);
        let windows: Vec<Window> = self.all_windows();
        self.release_windows(&windows);
        let mut tabs: Vec<Tab> = Vec::new();
        tabs.push(kept);
        self.tabs = tabs;
        self.current_tab = 0;
        proof {
            assert(self.tabs@ =~= seq![before.tab_now()]);
            workspace::lemma_sums_remove(before.tabs@, cur as int, BufferId(0));
            workspace::lemma_sums_one(before.tab_now(), BufferId(0));
            assert forall|x: BufferId|
                #[trigger] workspace::shown_count(self.tabs@)(x) == workspace::shown_count(
                    before.tabs@,
                )(x) - workspace::showing(windows@, x) by {
                workspace::lemma_sums_remove(before.tabs@, cur as int, x);
                workspace::lemma_sums_one(before.tab_now(), x);
                workspace::lemma_all_leaves(rest, x);
            }
            workspace::lemma_counts_released_by(
                before.pool.slots@,
                workspace::shown_count(before.tabs@),
                workspace::shown_count(self.tabs@),
                before.buf_ids.upcoming,
                windows@,
            );
            assert(workspace::tab_ok(
                before.tabs@[cur as int],
                before.win_ids.upcoming,
                before.buf_ids.upcoming,
            ));
        }
        self.mark_all_dirty();
        assert(self.tabs@ =~= seq![workspace::dirtied(before.tab_now())]);
    }

    /// The windows of all tabs, in order.
    pub(crate) fn all_windows(&self) -> (out: Vec<Window>)
        ensures
            out@ == workspace::all_leaves(self.tabs@),
    {
        let mut out: Vec<Window> = Vec::new();
        let mut i: usize = 0;
        assert(self.tabs@.take(0) =~= Seq::empty());
        while i < self.tabs.len()
            invariant
                i <= self.tabs@.len(),
                out@ == workspace::all_leaves(self.tabs@.take(i as int)),
            decreases self.tabs@.len() - i,
        {
            let ghost t = self.tabs@.take(i + 1);
            assert(t.drop_last() =~= self.tabs@.take(i as int));
            assert(t.last() == self.tabs@[i as int]);
            let mut more: Vec<Window> = self.tabs[i].tree.copies();
            out.append(&mut more);
            i += 1;
        }
        assert(self.tabs@.take(i as int) =~= self.tabs@);
        out
    }

    /// Make the tab `delta` places further the current one, going round.
    pub fn goto_tab_rel(&mut self, delta: i64)
        requires
            old(self).live(),
        ensures
            final(self).live(),
            turned_to(*old(self), *final(self), delta as int),
    {
        self.current_tab = wrap(self.current_tab, delta, self.tabs.len());
        self.mark_all_dirty();
    }

    /// Move the current tab `delta` places further, going round. It stays the
    /// current one.
    pub fn move_current_tab(&mut self, delta: i32)
        requires
            old(self).live(),
        ensures
            final(self).live(),
            tab_moved(*old(self), *final(self), delta as int),
    {
        let n: usize = self.tabs.len();
        let from: usize = self.current_tab;
        let to: usize = wrap(from, delta as i64, n);
        if to == from {
            return ;
        }
        let ghost before = *self;
        let tab: Tab = self.tabs.remove(from);
        self.tabs.insert(to, tab);
        self.current_tab = to;
        proof {
            let rest = before.tabs@.remove(from as int);
            let t = before.tab_now();
            assert(self.tabs@ =~= rest.insert(to as int, t));
            workspace::lemma_sums_remove(before.tabs@, from as int, BufferId(0));
            workspace::lemma_sums_insert(rest, to as int, t, BufferId(0));
            assert forall|x: BufferId|
                #[trigger] workspace::shown_count(before.tabs@)(x) == workspace::shown_count(
                    self.tabs@,
                )(x) by {
                workspace::lemma_sums_remove(before.tabs@, from as int, x);
                workspace::lemma_sums_insert(rest, to as int, t, x);
            }
            workspace::lemma_counts_same(
                before.pool.slots@,
                workspace::shown_count(before.tabs@),
                workspace::shown_count(self.tabs@),
                before.buf_ids.upcoming,
            );
            assert forall|i: int| 0 <= i < self.tabs@.len() implies workspace::tab_ok(
                #[trigger] self.tabs@[i],
                before.win_ids.upcoming,
                before.buf_ids.upcoming,
            ) by {
                let k: int = if i < to {
                    i
                } else {
                    i - 1
                };
                if i == to {
                    assert(self.tabs@[i] == before.tabs@[from as int]);
                } else {
                    assert(self.tabs@[i] == rest[k]);
                    assert(rest[k] == before.tabs@[if k < from {
                        k
                    } else {
                        k + 1
                    }]);
                }
            }
        }
        self.mark_all_dirty();
    }

    /// Give every split of the tab two halves.
    pub fn equalize_windows(&mut self)
        requires
            old(self).live(),
        ensures
            final(self).live(),
            evened(*old(self), *final(self)),
    {
        let ghost before = *self;
        let cur: usize = self.current_tab;
        self.tabs[cur].tree.equalize();
        proof {
            let t = Tab {
                tree: before.tab_now().tree.equalized(),
                focused: before.tab_now().focused,
            };
            before.tab_now().tree.lemma_ratios_keep_windows(
                WindowId(0),
                Axis::Horizontal,
                Real32 { bits: 0 },
            );
            lemma_same_leaves_ok(before, *self, t);
        }
        self.mark_all_dirty();
        assert(self.tabs@ =~= before.tabs@.update(
            cur as int,
            workspace::dirtied(
                Tab {
                    tree: before.tab_now().tree.equalized(),
                    focused: before.tab_now().focused,
                },
            ),
        ));
    }

    /// Make the focused window `delta` cells larger along `axis`.
    pub fn resize_focused<F: Fn(Real32, i32, u16) -> Real32>(
        &mut self,
        axis: Axis,
        delta: i32,
        nudged: &F,
    )
        requires
            old(self).live(),
            forall|r: Real32, d: i32, n: u16| call_requires(nudged, (r, d, n)),
        ensures
            final(self).live(),
            nudged_by(*old(self), *final(self), axis, delta, nudged),
    {
        let ghost before = *self;
        let cur: usize = self.current_tab;
        let focused: WindowId = self.tabs[cur].focused;
        let total: u16 = match axis {
            Axis::Horizontal => self.last_rect.rows,
            Axis::Vertical => self.last_rect.cols,
        };
        self.tabs[cur].tree.resize(focused, axis, delta, total, nudged);
        let ghost t = self.tabs@[cur as int];
        proof {
            assert(self.tabs@ =~= before.tabs@.update(cur as int, t));
            let was = before.tab_now().tree;
            if total > 0 {
                if let Some(ratio) = was.ratio_over(focused, axis) {
                    let sum = choose|sum: Real32|
                        #[trigger] call_ensures(nudged, (ratio, delta, total), sum) && t.tree
                            == was.with_ratio(
                            focused,
                            axis,
                            sum.clamped(Real32 { bits: ONE_TENTH }, Real32 { bits: NINE_TENTHS }),
                        );
                    was.lemma_ratios_keep_windows(
                        focused,
                        axis,
                        sum.clamped(Real32 { bits: ONE_TENTH }, Real32 { bits: NINE_TENTHS }),
                    );
                }
            }
            lemma_same_leaves_ok(before, *self, t);
        }
        self.mark_all_dirty();
        assert(self.tabs@ =~= before.tabs@.update(cur as int, workspace::dirtied(t)));
    }

    /// Focus the nearest window in a direction, where there is one.
    pub fn focus_dir<F: Fn(u16, Real32) -> u16>(&mut self, dir: Direction, share: &F)
        requires
            old(self).live(),
            forall|total: u16, ratio: Real32| call_requires(share, (total, ratio)),
        ensures
            final(self).live(),
            looked(*old(self), *final(self), dir, share),
    {
        let cur: usize = self.current_tab;
        let focused: WindowId = self.tabs[cur].focused;
        let next: Option<WindowId> = self.tabs[cur].tree.focus_neighbour(
            focused,
            dir,
            self.last_rect,
            share,
        );
        if let Some(id) = next {
            self.set_focus_window(id);
        }
    }

    /// Focus the next window in tree order, or the one before.
    pub fn focus_next(&mut self, reverse: bool)
        requires
            old(self).live(),
        ensures
            final(self).live(),
            cycled(*old(self), *final(self), reverse),
    {
        let cur: usize = self.current_tab;
        let focused: WindowId = self.tabs[cur].focused;
        proof {
            lemma_tab_small(*self);
        }
        if let Some(id) = self.tabs[cur].tree.focus_cycle(focused, reverse) {
            self.set_focus_window(id);
        }
    }

    /// A new window behind the focused one, which shows `buffer`. The buffer
    /// has been counted for it.
    pub(crate) fn insert_window(&mut self, axis: Axis, buffer: BufferId, viewport: Viewport)
        requires
            old(self).tabs@.len() > 0,
            old(self).current_tab < old(self).tabs@.len(),
            forall|i: int|
                0 <= i < old(self).tabs@.len() ==> workspace::tab_ok(
                    #[trigger] old(self).tabs@[i],
                    old(self).win_ids.upcoming,
                    old(self).buf_ids.upcoming,
                ),
            workspace::total(old(self).tabs@) < old(self).win_ids.upcoming,
            old(self).win_ids.upcoming < u32::MAX,
            1 <= old(self).buf_ids.upcoming,
            buffer.0 < old(self).buf_ids.upcoming,
            old(self).last_rect.on_grid(),
            workspace::pool_counts(
                old(self).pool.slots@,
                counted_more(old(self).tabs@, buffer),
                old(self).buf_ids.upcoming,
            ),
        ensures
            final(self).live(),
            final(self).same_rest(*old(self)),
            final(self).pool == old(self).pool,
            final(self).closed == old(self).closed,
            final(self).buf_ids == old(self).buf_ids,
            final(self).current_tab == old(self).current_tab,
            final(self).win_ids.upcoming == old(self).win_ids.upcoming + 1,
            final(self).tabs@ == old(self).tabs@.update(
                old(self).current_tab as int,
                split_tab(
                    old(self).tab_now(),
                    axis,
                    Window::fresh(WindowId(old(self).win_ids.upcoming), buffer, viewport),
                ),
            ),
    {
        let ghost before = *self;
        let cur: usize = self.current_tab;
        let focused: WindowId = self.tabs[cur].focused;
        let new_id: WindowId = self.win_ids.next();
        let w: Window = Window::new(new_id, buffer, viewport);
        proof {
            assert(workspace::tab_ok(
                before.tabs@[cur as int],
                before.win_ids.upcoming,
                before.buf_ids.upcoming,
            ));
            before.tab_now().tree.lemma_split_inserts(focused, axis, w);
        }
        self.tabs[cur].tree.split(focused, axis, w);
        self.tabs[cur].focused = new_id;
        proof {
            let was = before.tab_now();
            let t = Tab { tree: was.tree.split_at(focused, axis, w)->0, focused: new_id };
            let at = window::position(was.tree.leaves(), focused)->0;
            window::lemma_position(was.tree.leaves(), focused);
            assert(self.tabs@ =~= before.tabs@.update(cur as int, t));
            lemma_inserted_ok(
                before.tabs@,
                cur as int,
                t,
                at + 1,
                w,
                before.win_ids.upcoming,
                before.buf_ids.upcoming,
            );
            let a = counted_more(before.tabs@, buffer);
            let b = workspace::shown_count(self.tabs@);
            assert forall|x: BufferId| #[trigger] a(x) == b(x) by {
                assert(counted_more(before.tabs@, w.buffer)(x) == workspace::shown_count(
                    before.tabs@.update(cur as int, t),
                )(x));
            }
            workspace::lemma_counts_same(before.pool.slots@, a, b, before.buf_ids.upcoming);
        }
        self.mark_all_dirty();
        assert(self.tabs@ =~= before.tabs@.update(
            cur as int,
            split_tab(before.tab_now(), axis, w),
        ));
    }

    /// A new tab behind all others, with one window that shows `buffer`. The
    /// buffer has been counted for it.
    pub(crate) fn insert_tab(&mut self, buffer: BufferId, viewport: Viewport)
        requires
            old(self).tabs@.len() > 0,
            old(self).tabs@.len() < usize::MAX,
            forall|i: int|
                0 <= i < old(self).tabs@.len() ==> workspace::tab_ok(
                    #[trigger] old(self).tabs@[i],
                    old(self).win_ids.upcoming,
                    old(self).buf_ids.upcoming,
                ),
            workspace::total(old(self).tabs@) < old(self).win_ids.upcoming,
            old(self).win_ids.upcoming < u32::MAX,
            1 <= old(self).buf_ids.upcoming,
            buffer.0 < old(self).buf_ids.upcoming,
            old(self).last_rect.on_grid(),
            workspace::pool_counts(
                old(self).pool.slots@,
                counted_more(old(self).tabs@, buffer),
                old(self).buf_ids.upcoming,
            ),
        ensures
            final(self).live(),
            final(self).same_rest(*old(self)),
            final(self).pool == old(self).pool,
            final(self).closed == old(self).closed,
            final(self).buf_ids == old(self).buf_ids,
            final(self).current_tab == old(self).tabs@.len(),
            final(self).win_ids.upcoming == old(self).win_ids.upcoming + 1,
            final(self).tabs@ == old(self).tabs@.push(
                new_tab(WindowId(old(self).win_ids.upcoming), buffer, viewport),
            ),
    {
        let ghost before = *self;
        let new_id: WindowId = self.win_ids.next();
        let w: Window = Window::new(new_id, buffer, viewport);
        let tab: Tab = Tab::new(WindowTree::leaf(w));
        let ghost t = tab;
        self.tabs.push(tab);
        self.current_tab = self.tabs.len() - 1;
        proof {
            let leaves = t.tree.leaves();
            assert(leaves =~= seq![w]);
            reveal_with_fuel(window::position, 2);
            assert(before.tabs@.push(t) =~= before.tabs@.insert(before.tabs@.len() as int, t));
            workspace::lemma_sums_insert(before.tabs@, before.tabs@.len() as int, t, buffer);
            let a = counted_more(before.tabs@, buffer);
            let b = workspace::shown_count(self.tabs@);
            assert forall|x: BufferId| #[trigger] a(x) == b(x) by {
                workspace::lemma_sums_insert(before.tabs@, before.tabs@.len() as int, t, x);
                workspace::lemma_showing_one(w, x);
            }
            workspace::lemma_counts_same(before.pool.slots@, a, b, before.buf_ids.upcoming);
            workspace::lemma_tabs_grow(
                before.tabs@,
                before.win_ids.upcoming,
                before.buf_ids.upcoming,
                self.win_ids.upcoming,
                self.buf_ids.upcoming,
            );
            assert forall|i: int| 0 <= i < self.tabs@.len() implies workspace::tab_ok(
                #[trigger] self.tabs@[i],
                self.win_ids.upcoming,
                self.buf_ids.upcoming,
            ) by {
                if i < before.tabs@.len() {
                    assert(self.tabs@[i] == before.tabs@[i]);
                }
            }
        }
        self.mark_all_dirty();
        assert(self.tabs@ =~= before.tabs@.push(new_tab(new_id, buffer, viewport)));
    }
}

/// A tab with one new window.
pub open spec fn new_tab(id: WindowId, buffer: BufferId, viewport: Viewport) -> Tab {
    workspace::dirtied(
        Tab { tree: WindowTree::Leaf(Window::fresh(id, buffer, viewport)), focused: id },
    )
}

/// How often a buffer is shown, with one more window for `id`.
pub open spec fn counted_more(tabs: Seq<Tab>, id: BufferId) -> spec_fn(BufferId) -> int {
    |x: BufferId|
        workspace::shown(tabs, x) + (if x == id {
            1int
        } else {
            0int
        })
}

/// The tabs after focus was asked to move to a window of the current one.
pub open spec fn focused_on<D>(ws: Workspace<D>, next: Option<WindowId>) -> Seq<Tab> {
    match next {
        Some(id) => if ws.tab_now().tree.has(id) {
            ws.tabs@.update(
                ws.current_tab as int,
                Tab { tree: ws.tab_now().tree.dirtied(), focused: id },
            )
        } else {
            ws.tabs@
        },
        None => ws.tabs@,
    }
}

/// A tab has fewer windows than ids were handed out.
pub(crate) proof fn lemma_tab_small<D>(ws: Workspace<D>)
    requires
        ws.live(),
    ensures
        ws.tab_now().tree.leaves().len() < u32::MAX,
{
    workspace::lemma_sums_remove(ws.tabs@, ws.current_tab as int, BufferId(0));
}

/// Replacing the current tab by one with the same windows keeps everything in
/// order.
proof fn lemma_same_leaves_ok<D>(before: Workspace<D>, after: Workspace<D>, t: Tab)
    requires
        before.live(),
        after.same_but_tabs(before),
        after.tabs@ == before.tabs@.update(before.current_tab as int, t),
        t.focused == before.tab_now().focused,
        t.tree.leaves() == before.tab_now().tree.leaves(),
    ensures
        after.inv(),
{
    assert(workspace::tab_ok(
        before.tabs@[before.current_tab as int],
        before.win_ids.upcoming,
        before.buf_ids.upcoming,
    ));
    workspace::lemma_tab_same(
        before.tab_now(),
        t,
        before.win_ids.upcoming,
        before.buf_ids.upcoming,
    );
    workspace::lemma_inv_same_tab(before, after, t);
}

/// Taking the focused window out of the current tab keeps everything in order.
proof fn lemma_removed_ok<D>(before: Workspace<D>, t: Tab)
    requires
        before.live(),
        t.tree.leaves() == before.tab_now().tree.leaves().remove(before.focus_at()),
        t.tree.has(t.focused),
    ensures
        ({
            let tabs = before.tabs@.update(before.current_tab as int, t);
            &&& workspace::total(tabs) < before.win_ids.upcoming
            &&& forall|i: int|
                0 <= i < tabs.len() ==> workspace::tab_ok(
                    #[trigger] tabs[i],
                    before.win_ids.upcoming,
                    before.buf_ids.upcoming,
                )
            &&& workspace::pool_counts(
                pool::released(before.pool.slots@, before.focus_now().buffer),
                workspace::shown_count(tabs),
                before.buf_ids.upcoming,
            )
        }),
{
    let cur = before.current_tab as int;
    let tabs = before.tabs@.update(cur, t);
    let was = before.tab_now().tree.leaves();
    let now = t.tree.leaves();
    let at = before.focus_at();
    let id = before.focus_now().buffer;
    workspace::lemma_focus(before);
    assert(workspace::tab_ok(
        before.tabs@[cur],
        before.win_ids.upcoming,
        before.buf_ids.upcoming,
    ));
    workspace::lemma_sums_update(before.tabs@, cur, t, id);
    assert forall|x: BufferId|
        #[trigger] workspace::shown_count(tabs)(x) == workspace::shown_count(before.tabs@)(x) - (if x
            == id {
            1int
        } else {
            0int
        }) by {
        workspace::lemma_sums_update(before.tabs@, cur, t, x);
        workspace::lemma_showing_remove(was, at, x);
        workspace::lemma_showing_one(was[at], x);
    }
    workspace::lemma_counts_released(
        before.pool.slots@,
        workspace::shown_count(before.tabs@),
        workspace::shown_count(tabs),
        before.buf_ids.upcoming,
        id,
    );
    assert forall|i: int| 0 <= i < now.len() implies #[trigger] now[i] == was[if i < at {
        i
    } else {
        i + 1
    }] by {}
    assert forall|i: int| 0 <= i < tabs.len() implies workspace::tab_ok(
        #[trigger] tabs[i],
        before.win_ids.upcoming,
        before.buf_ids.upcoming,
    ) by {
        if i != cur {
            assert(tabs[i] == before.tabs@[i]);
        }
    }
}

/// One more window in a tab: limits and counts.
proof fn lemma_inserted_ok(
    tabs: Seq<Tab>,
    cur: int,
    t: Tab,
    at: int,
    w: Window,
    windows: u32,
    buffers: u32,
)
    requires
        0 <= cur < tabs.len(),
        windows < u32::MAX,
        forall|i: int| 0 <= i < tabs.len() ==> workspace::tab_ok(#[trigger] tabs[i], windows, buffers),
        0 <= at <= tabs[cur].tree.leaves().len(),
        t.tree.leaves() == tabs[cur].tree.leaves().insert(at, w),
        t.focused == w.id,
        w.id == WindowId(windows),
        w.buffer.0 < buffers,
        w.alternate is None,
    ensures
        workspace::total(tabs.update(cur, t)) == workspace::total(tabs) + 1,
        forall|i: int|
            0 <= i < tabs.len() ==> workspace::tab_ok(
                #[trigger] tabs.update(cur, t)[i],
                (windows + 1) as u32,
                buffers,
            ),
        forall|x: BufferId|
            #[trigger] counted_more(tabs, w.buffer)(x) == workspace::shown_count(
                tabs.update(cur, t),
            )(x),
{
    let was = tabs[cur].tree.leaves();
    let now = t.tree.leaves();
    workspace::lemma_sums_update(tabs, cur, t, w.buffer);
    assert forall|x: BufferId|
        #[trigger] counted_more(tabs, w.buffer)(x) == workspace::shown_count(tabs.update(cur, t))(
            x,
        ) by {
        workspace::lemma_sums_update(tabs, cur, t, x);
        workspace::lemma_showing_insert(was, at, w, x);
        workspace::lemma_showing_one(w, x);
    }
    workspace::lemma_tabs_grow(tabs, windows, buffers, (windows + 1) as u32, buffers);
    assert(workspace::tab_ok(tabs[cur], windows, buffers));
    assert forall|i: int| 0 <= i < now.len() implies #[trigger] now[i] == (if i == at {
        w
    } else if i < at {
        was[i]
    } else {
        was[i - 1]
    }) by {}
    window::lemma_position(now, w.id);
    assert(now[at].id == w.id);
    assert(window::distinct(now));
    assert(workspace::tab_ok(t, (windows + 1) as u32, buffers));
}

proof fn lemma_wrapped_back(cur: int, delta: int, n: int)
    requires
        0 <= cur < n,
    ensures
        0 <= wrapped(cur, delta, n) < n,
        wrapped(wrapped(cur, delta, n), -delta, n) == cur,
{
    vstd::arithmetic::div_mod::lemma_mod_bound(cur + delta, n);
    vstd::arithmetic::div_mod::lemma_add_mod_noop(cur + delta, -delta, n);
    vstd::arithmetic::div_mod::lemma_add_mod_noop((cur + delta) % n, -delta, n);
    vstd::arithmetic::div_mod::lemma_mod_twice(cur + delta, n);
    vstd::arithmetic::div_mod::lemma_small_mod(cur as nat, n as nat);
}

/// Turning some tabs on and as many back shows the tab that was shown.
pub proof fn lemma_turn_and_back<D>(
    a: Workspace<D>,
    b: Workspace<D>,
    c: Workspace<D>,
    delta: int,
)
    requires
        a.live(),
        turned_to(a, b, delta),
        turned_to(b, c, -delta),
    ensures
        c.current_tab == a.current_tab,
{
    lemma_wrapped_back(a.current_tab as int, delta, a.tabs@.len() as int);
}

/// Moving a tab and moving it as far back leaves the tabs in their order. The
/// focused window tells a tab from the others.
pub proof fn lemma_move_and_back<D>(
    a: Workspace<D>,
    b: Workspace<D>,
    c: Workspace<D>,
    delta: int,
)
    requires
        a.live(),
        tab_moved(a, b, delta),
        tab_moved(b, c, -delta),
    ensures
        c.current_tab == a.current_tab,
        c.tabs@.len() == a.tabs@.len(),
        forall|i: int| 0 <= i < a.tabs@.len() ==> (#[trigger] c.tabs@[i]).focused == a.tabs@[i].focused,
{
    let from = a.current_tab as int;
    let n = a.tabs@.len() as int;
    let to = wrapped(from, delta, n);
    lemma_wrapped_back(from, delta, n);
    if to != from {
        let once = a.tabs@.remove(from).insert(to, a.tab_now());
        assert(once.len() == n);
        assert(once.remove(to) =~= a.tabs@.remove(from));
        assert(a.tabs@.remove(from).insert(from, a.tab_now()) =~= a.tabs@);
        let shown = repainted(once, to);
        assert(b.tabs@ == shown);
        let again = shown.remove(to).insert(from, shown[to]);
        assert forall|i: int| 0 <= i < n implies (#[trigger] again[i]).focused == a.tabs@[i].focused by {
            assert(shown.remove(to) =~= once.remove(to));
        }
        assert(c.tabs@ == repainted(again, from));
    }
}

} // verus!
