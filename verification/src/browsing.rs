//! The directory browser in the focused window.
use vstd::prelude::*;

use crate::buffer::Buffer;
use crate::commands;
use crate::document::PageMetrics;
use crate::explorer::{self, DirItem, ExplorerBuffer, ExplorerKind};
use crate::opening;
use crate::paths;
use crate::pool::{self, Slot};
use crate::reading;
use crate::window::Window;
use crate::workspace::{self, Source, Workspace, WorkspaceError};

verus! {

/// Only what the browser in the focused window holds may differ; it is `e`.
pub open spec fn browser_after<D>(
    before: Workspace<D>,
    slots: Seq<Slot<D>>,
    e: ExplorerBuffer,
) -> bool {
    let i = pool::slot_at(before.pool.slots@, before.focus_now().buffer)->0;
    slots == before.pool.slots@.update(
        i,
        Slot { buf: Buffer::Explorer(e), ..before.pool.slots@[i] },
    )
}

/// The focused window is to be painted again.
pub open spec fn focus_dirtied<D>(before: Workspace<D>, after: Workspace<D>) -> bool {
    &&& after.same_frame(before)
    &&& after.tabs@ == opening::with_focus(before, Window { dirty: true, ..before.focus_now() })
}

/// The browser with the selection moved, at most to either end.
pub open spec fn moved(e: ExplorerBuffer, delta: isize) -> ExplorerBuffer {
    let n = e.entries@.len() as int;
    let next = e.selected + delta;
    ExplorerBuffer {
        selected: (if n == 0 {
            e.selected as int
        } else if next < 0 {
            0
        } else if next >= n {
            n - 1
        } else {
            next
        }) as usize,
        ..e
    }
}

/// The browser with the last entry selected.
pub open spec fn at_last(e: ExplorerBuffer) -> ExplorerBuffer {
    ExplorerBuffer {
        selected: (if e.entries@.len() == 0 {
            e.selected as int
        } else {
            e.entries@.len() - 1
        }) as usize,
        ..e
    }
}

/// The selection moved by `delta` entries.
pub open spec fn selection_moved<D>(
    before: Workspace<D>,
    after: Workspace<D>,
    delta: isize,
) -> bool {
    &&& focus_dirtied(before, after)
    &&& match reading::focused_buffer(before) {
        Some(Buffer::Explorer(e)) => browser_after(
            before,
            after.pool.slots@,
            moved(e, delta),
        ),
        _ => after.pool.slots@ == before.pool.slots@,
    }
}

/// The first entry is selected.
pub open spec fn first_selected<D>(
    before: Workspace<D>,
    after: Workspace<D>,

) -> bool {
    &&& focus_dirtied(before, after)
    &&& match reading::focused_buffer(before) {
        Some(Buffer::Explorer(e)) => browser_after(
            before,
            after.pool.slots@,
            ExplorerBuffer { selected: 0, ..e },
        ),
        _ => after.pool.slots@ == before.pool.slots@,
    }
}

/// The last entry is selected.
pub open spec fn last_selected<D>(
    before: Workspace<D>,
    after: Workspace<D>,

) -> bool {
    &&& focus_dirtied(before, after)
    &&& match reading::focused_buffer(before) {
        Some(Buffer::Explorer(e)) => browser_after(
            before,
            after.pool.slots@,
            at_last(e),
        ),
        _ => after.pool.slots@ == before.pool.slots@,
    }
}

/// The selected entry's path and whether it is a directory.
pub open spec fn target<D>(ws: Workspace<D>) -> Option<(Seq<char>, bool)> {
    match reading::focused_buffer(ws) {
        Some(Buffer::Explorer(e)) => if e.selected >= e.entries@.len() {
            None
        } else {
            let entry = e.entries@[e.selected as int];
            match entry.kind {
                ExplorerKind::ParentDir => match paths::parent(e.cwd@) {
                    Some(p) => Some((p, true)),
                    None => None,
                },
                ExplorerKind::Dir => Some((commands::joined(e.cwd@, entry.name@), true)),
                ExplorerKind::Pdf => Some((commands::joined(e.cwd@, entry.name@), false)),
            }
        },
        _ => None,
    }
}

/// What going up leaves in the browser: the directory that was left is
/// selected where it is shown.
pub open spec fn went_up(
    e: ExplorerBuffer,
    now: ExplorerBuffer,
    up: Seq<char>,
    items: Seq<DirItem>,
) -> bool {
    &&& now.id == e.id
    &&& now.cwd@ == up
    &&& explorer::shows(now.list(), up, items)
    &&& now.selected == (match paths::file_name(e.cwd@) {
        Some(child) => match explorer::position(now.list(), child) {
            Some(i) => i,
            None => e.reselected(now.list()),
        },
        None => e.reselected(now.list()),
    })
}

/// What entering a directory leaves in the browser.
pub open spec fn entered(
    e: ExplorerBuffer,
    now: ExplorerBuffer,
    cwd: Seq<char>,
    items: Seq<DirItem>,
) -> bool {
    &&& now.id == e.id
    &&& now.cwd@ == cwd
    &&& explorer::shows(now.list(), cwd, items)
    &&& now.selected == 0
}

impl<D> Workspace<D> {
    /// Have the focused window painted again.
    pub(crate) fn dirty_focus(&mut self)
        requires
            old(self).live(),
        ensures
            final(self).live(),
            final(self).same_but_tabs(*old(self)),
            final(self).tabs@ == opening::with_focus(
                *old(self),
                Window { dirty: true, ..old(self).focus_now() },
            ),
    {
        let here: Window = self.focused_window();
        proof {
            workspace::lemma_focus(*self);
        }
        self.edit_focus(Window { dirty: true, ..here });
    }

    /// Move the selection by `delta` entries.
    pub fn explorer_move(&mut self, delta: isize)
        requires
            old(self).live(),
        ensures
            final(self).live(),
            selection_moved(*old(self), *final(self), delta),
    {
        let ghost before = *self;
        let here: Window = self.focused_window();
        proof {
            reading::lemma_held(before, here.buffer);
        }
        if let Some(i) = self.pool.find(here.buffer) {
            if let Buffer::Explorer(e) = &mut self.pool.slots[i].buf {
                e.move_selection(delta);
            }
            proof {
                lemma_browser_edited(before, *self, i as int);
            }
        }
        self.dirty_focus();
    }

    /// Select the first entry.
    pub fn explorer_first(&mut self)
        requires
            old(self).live(),
        ensures
            final(self).live(),
            first_selected(*old(self), *final(self)),
    {
        let ghost before = *self;
        let here: Window = self.focused_window();
        proof {
            reading::lemma_held(before, here.buffer);
        }
        if let Some(i) = self.pool.find(here.buffer) {
            if let Buffer::Explorer(e) = &mut self.pool.slots[i].buf {
                e.goto_first();
            }
            proof {
                lemma_browser_edited(before, *self, i as int);
            }
        }
        self.dirty_focus();
    }

    /// Select the last entry.
    pub fn explorer_last(&mut self)
        requires
            old(self).live(),
        ensures
            final(self).live(),
            last_selected(*old(self), *final(self)),
    {
        let ghost before = *self;
        let here: Window = self.focused_window();
        proof {
            reading::lemma_held(before, here.buffer);
        }
        if let Some(i) = self.pool.find(here.buffer) {
            if let Buffer::Explorer(e) = &mut self.pool.slots[i].buf {
                e.goto_last();
            }
            proof {
                lemma_browser_edited(before, *self, i as int);
            }
        }
        self.dirty_focus();
    }

    /// Go to the parent directory. `up` is that directory and what was found
    /// in it, `None` where there is no parent.
    pub fn explorer_parent(&mut self, up: Option<(String, Vec<DirItem>)>) -> (r: Result<
        (),
        WorkspaceError,
    >)
        requires
            old(self).live(),
        ensures
            final(self).live(),
            r is Ok,
            match (reading::focused_buffer(*old(self)), up) {
                (Some(Buffer::Explorer(e)), Some((cwd, items))) => {
                    &&& focus_dirtied(*old(self), *final(self))
                    &&& exists|now: ExplorerBuffer|
                        went_up(e, now, cwd@, items@) && #[trigger] browser_after(
                            *old(self),
                            final(self).pool.slots@,
                            now,
                        )
                },
                _ => {
                    &&& focus_dirtied(*old(self), *final(self))
                    &&& final(self).pool.slots@ == old(self).pool.slots@
                },
            },
    {
        let ghost before = *self;
        let here: Window = self.focused_window();
        proof {
            reading::lemma_held(before, here.buffer);
        }
        if let Some(i) = self.pool.find(here.buffer) {
            if let Buffer::Explorer(e) = &mut self.pool.slots[i].buf {
                if let Some((cwd, items)) = up {
                    e.parent(cwd, &items);
                }
            }
            proof {
                lemma_browser_edited(before, *self, i as int);
                if up is None {
                    assert(self.pool.slots@ =~= before.pool.slots@);
                } else if before.pool.slots@[i as int].buf is Explorer {
                    assert(browser_after(
                        before,
                        self.pool.slots@,
                        self.pool.slots@[i as int].buf->Explorer_0,
                    ));
                }
            }
        }
        self.dirty_focus();
        Ok(())
    }

    /// The selected entry's path and whether it is a directory. `None` where
    /// the focused window shows no directory or nothing is selected.
    pub fn explorer_target(&self) -> (r: Option<(String, bool)>)
        requires
            self.live(),
        ensures
            match target(*self) {
                Some((path, is_dir)) => r matches Some((s, d)) && s@ == path && d == is_dir,
                None => r is None,
            },
    {
        let here: Window = self.focused_window();
        match self.pool.get(here.buffer) {
            Some(Buffer::Explorer(e)) => match e.selected_entry() {
                None => None,
                Some(entry) => {
                    let is_dir: bool = entry.is_dir_like();
                    match e.selected_path() {
                        None => None,
                        Some(path) => Some((path, is_dir)),
                    }
                },
            },
            _ => None,
        }
    }
}

impl<D: PageMetrics> Workspace<D> {
    /// Enter the selected directory or open the selected document in the
    /// focused window. `source` is what the selected path leads to.
    pub fn explorer_activate(&mut self, source: Source<D>) -> (r: Result<(), WorkspaceError>)
        requires
            old(self).live(),
            old(self).win_ids.upcoming < u32::MAX,
            old(self).buf_ids.upcoming < u32::MAX,
        ensures
            final(self).live(),
            match target(*old(self)) {
                None => r is Ok && *final(self) == *old(self),
                Some((_, false)) => if !opening::can_open(*old(self), source) {
                    opening::refused(source, r) && opening::failed(*old(self), *final(self))
                } else {
                    r is Ok && opening::loaded_with(*old(self), *final(self), source)
                },
                Some((_, true)) => {
                    let e = reading::focused_buffer(*old(self))->0->Explorer_0;
                    match source {
                        Source::Dir { cwd, items } => {
                            &&& r is Ok
                            &&& focus_dirtied(*old(self), *final(self))
                            &&& exists|now: ExplorerBuffer|
                                entered(e, now, cwd@, items@) && #[trigger] browser_after(
                                    *old(self),
                                    final(self).pool.slots@,
                                    now,
                                )
                        },
                        Source::Pdf { .. } => r == Err::<(), _>(WorkspaceError::NotSupplied)
                            && *final(self) == *old(self),
                    }
                },
            },
    {
        let ghost before = *self;
        let here: Window = self.focused_window();
        proof {
            workspace::lemma_focus(before);
            reading::lemma_held(before, here.buffer);
        }
        let is_dir: bool = match self.explorer_target() {
            None => {
                return Ok(());
            },
            Some((_, is_dir)) => is_dir,
        };
        if !is_dir {
            proof {
                opening::lemma_not_the_browser(before, source);
            }
            return self.open_in_focus(source);
        }
        match source {
            Source::Pdf { .. } => Err(WorkspaceError::NotSupplied),
            Source::Dir { cwd, items } => match self.pool.find(here.buffer) {
                None => Err(WorkspaceError::NotSupplied),
                Some(i) => {
                    if let Buffer::Explorer(e) = &mut self.pool.slots[i].buf {
                        e.set_cwd(cwd, &items);
                    }
                    proof {
                        lemma_browser_edited(before, *self, i as int);
                        assert(browser_after(
                            before,
                            self.pool.slots@,
                            self.pool.slots@[i as int].buf->Explorer_0,
                        ));
                    }
                    self.dirty_focus();
                    Ok(())
                },
            },
        }
    }
}

/// Changing what a browser holds keeps everything in order.
proof fn lemma_browser_edited<D>(before: Workspace<D>, after: Workspace<D>, i: int)
    requires
        before.inv(),
        after.same_frame(before),
        after.tabs == before.tabs,
        0 <= i < before.pool.slots@.len(),
        after.pool.slots@ == before.pool.slots@.update(i, after.pool.slots@[i]),
        after.pool.slots@[i].key == before.pool.slots@[i].key,
        after.pool.slots@[i].refs == before.pool.slots@[i].refs,
        match before.pool.slots@[i].buf {
            Buffer::Pdf(_) => after.pool.slots@[i].buf == before.pool.slots@[i].buf,
            Buffer::Explorer(e) => after.pool.slots@[i].buf matches Buffer::Explorer(now) && now.id
                == e.id,
        },
        before.pool.slots@[i].buf matches Buffer::Pdf(p) ==> p.search.valid(),
    ensures
        after.inv(),
        before.pool.slots@[i].buf is Pdf ==> after.pool.slots@ == before.pool.slots@,
        after.pool.slots@ == before.pool.slots@.update(
            i,
            Slot { buf: after.pool.slots@[i].buf, ..before.pool.slots@[i] },
        ),
{
    reading::lemma_edited_inv(before, after, i);
    if before.pool.slots@[i].buf is Pdf {
        assert(after.pool.slots@ =~= before.pool.slots@);
    }
}

} // verus!
