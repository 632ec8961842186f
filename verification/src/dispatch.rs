//! What window keys and commands do to the workspace.
use vstd::prelude::*;

use crate::commands::ParsedCommand;
use crate::document::PageMetrics;
use crate::keys::WindowOp;
use crate::number::Real32;
use crate::opening::{self, axis_of};
use crate::reading;
use crate::splits;
use crate::window::{Axis, Direction};
use crate::workspace::{CacheSettings, Source, Workspace, WorkspaceError};

verus! {

/// What a window key comes to.
pub open spec fn op_result<
    D: PageMetrics,
    F: Fn(u16, Real32) -> u16,
    G: Fn(Real32, i32, u16) -> Real32,
>(
    before: Workspace<D>,
    after: Workspace<D>,
    op: WindowOp,
    share: &F,
    nudged: &G,
    r: Result<(), WorkspaceError>,
) -> bool {
    match op {
        WindowOp::FocusLeft => r is Ok && splits::looked(before, after, Direction::Left, share),
        WindowOp::FocusRight => r is Ok && splits::looked(before, after, Direction::Right, share),
        WindowOp::FocusUp => r is Ok && splits::looked(before, after, Direction::Up, share),
        WindowOp::FocusDown => r is Ok && splits::looked(before, after, Direction::Down, share),
        WindowOp::FocusCycle { reverse } => r is Ok && splits::cycled(before, after, reverse),
        WindowOp::SplitHorizontal => opening::split_result(
            before,
            after,
            Axis::Horizontal,
            None,
            r,
        ),
        WindowOp::SplitVertical => opening::split_result(before, after, Axis::Vertical, None, r),
        WindowOp::Close => r is Ok && splits::window_taken(before, after),
        WindowOp::Only => r is Ok && splits::alone(before, after),
        WindowOp::Equalize => r is Ok && splits::evened(before, after),
        WindowOp::ResizeVertical(n) => r is Ok && splits::nudged_by(
            before,
            after,
            Axis::Horizontal,
            n,
            nudged,
        ),
        WindowOp::ResizeHorizontal(n) => r is Ok && splits::nudged_by(
            before,
            after,
            Axis::Vertical,
            n,
            nudged,
        ),
        WindowOp::NextTab(n) => r is Ok && splits::turned_to(before, after, (n as i32) as int),
        WindowOp::PrevTab(n) => r is Ok && splits::turned_to(before, after, -(n as i32)),
        WindowOp::MoveTabLeft => r is Ok && splits::tab_moved(before, after, -1),
        WindowOp::MoveTabRight => r is Ok && splits::tab_moved(before, after, 1),
        WindowOp::AlternateBuffer => opening::alternate_result(before, after, r),
    }
}

/// What the path of a command leads to was not handed in.
pub open spec fn nowhere<D>(
    before: Workspace<D>,
    after: Workspace<D>,
    r: Result<(), WorkspaceError>,
) -> bool {
    r == Err::<(), _>(WorkspaceError::NotSupplied) && after == before
}

/// What a command comes to. `source` is what the path that it names leads to.
pub open spec fn command_result<
    D: PageMetrics,
    F: Fn(Real32, Real32) -> Real32,
    G: Fn(Real32, i32, u16) -> Real32,
>(
    before: Workspace<D>,
    after: Workspace<D>,
    cmd: ParsedCommand,
    source: Option<Source<D>>,
    times: &F,
    nudged: &G,
    caches: CacheSettings,
    r: Result<(), WorkspaceError>,
) -> bool {
    match cmd {
        ParsedCommand::Nav(action) => reading::nav_result(
            before,
            after,
            action,
            1,
            times,
            caches,
            r,
        ),
        ParsedCommand::Quit => r is Ok && after == (Workspace { quit_requested: true, ..before }),
        ParsedCommand::CloseWindow => r is Ok && (if before.tabs@.len() == 1
            && before.tab_now().tree.leaves().len() == 1 {
            after == (Workspace { quit_requested: true, ..before })
        } else {
            splits::window_taken(before, after)
        }),
        ParsedCommand::OnlyWindow => r is Ok && splits::alone(before, after),
        ParsedCommand::Split { direction, file } => if file is None {
            opening::split_result(before, after, opening::axis_for(direction), None, r)
        } else if source is None {
            nowhere(before, after, r)
        } else {
            opening::split_result(before, after, opening::axis_for(direction), source, r)
        },
        ParsedCommand::Edit(_) => match source {
            Some(s) => opening::edit_result(before, after, s, r),
            None => nowhere(before, after, r),
        },
        ParsedCommand::Explore { split, .. } => match source {
            Some(Source::Dir { cwd, items }) => r is Ok && opening::browsing(
                before,
                after,
                split,
                cwd@,
                items@,
            ),
            _ => nowhere(before, after, r),
        },
        ParsedCommand::TabNew(file) => if file is None {
            opening::tab_result(before, after, None, r)
        } else if source is None {
            nowhere(before, after, r)
        } else {
            opening::tab_result(before, after, source, r)
        },
        ParsedCommand::TabClose => r is Ok && splits::tab_taken(before, after),
        ParsedCommand::TabOnly => r is Ok && splits::tab_alone(before, after),
        ParsedCommand::Buffer(n) => opening::number_result(before, after, n, r),
        ParsedCommand::BufferNext => opening::cycle_result(before, after, 1, r),
        ParsedCommand::BufferPrev => opening::cycle_result(before, after, -1, r),
        ParsedCommand::TabMove(n) => r is Ok && splits::tab_moved(before, after, n as int),
        ParsedCommand::Resize(n) => r is Ok && splits::nudged_by(
            before,
            after,
            Axis::Horizontal,
            n,
            nudged,
        ),
        ParsedCommand::VResize(n) => r is Ok && splits::nudged_by(
            before,
            after,
            Axis::Vertical,
            n,
            nudged,
        ),
        _ => r == Err::<(), _>(WorkspaceError::Passthrough) && after == before,
    }
}

impl<D: PageMetrics> Workspace<D> {
    /// Carry out a window key.
    pub fn apply_window_op<F: Fn(u16, Real32) -> u16, G: Fn(Real32, i32, u16) -> Real32>(
        &mut self,
        op: WindowOp,
        share: &F,
        nudged: &G,
    ) -> (r: Result<(), WorkspaceError>)
        requires
            old(self).live(),
            old(self).win_ids.upcoming < u32::MAX,
            old(self).buf_ids.upcoming < u32::MAX,
            forall|total: u16, ratio: Real32| call_requires(share, (total, ratio)),
            forall|x: Real32, d: i32, n: u16| call_requires(nudged, (x, d, n)),
        ensures
            final(self).inv(),
            op_result(*old(self), *final(self), op, share, nudged, r),
    {
        match op {
            WindowOp::FocusLeft => {
                self.focus_dir(Direction::Left, share);
                Ok(())
            },
            WindowOp::FocusRight => {
                self.focus_dir(Direction::Right, share);
                Ok(())
            },
            WindowOp::FocusUp => {
                self.focus_dir(Direction::Up, share);
                Ok(())
            },
            WindowOp::FocusDown => {
                self.focus_dir(Direction::Down, share);
                Ok(())
            },
            WindowOp::FocusCycle { reverse } => {
                self.focus_next(reverse);
                Ok(())
            },
            WindowOp::SplitHorizontal => self.split_focused(Axis::Horizontal, None),
            WindowOp::SplitVertical => self.split_focused(Axis::Vertical, None),
            WindowOp::Close => {
                self.close_focused();
                Ok(())
            },
            WindowOp::Only => {
                self.only_focused();
                Ok(())
            },
            WindowOp::Equalize => {
                self.equalize_windows();
                Ok(())
            },
            WindowOp::ResizeVertical(n) => {
                self.resize_focused(Axis::Horizontal, n, nudged);
                Ok(())
            },
            WindowOp::ResizeHorizontal(n) => {
                self.resize_focused(Axis::Vertical, n, nudged);
                Ok(())
            },
            WindowOp::NextTab(n) => {
                let delta: i32 = #[verifier::truncate] (n as i32);
                self.goto_tab_rel(delta as i64);
                Ok(())
            },
            WindowOp::PrevTab(n) => {
                let delta: i32 = #[verifier::truncate] (n as i32);
                self.goto_tab_rel(-(delta as i64));
                Ok(())
            },
            WindowOp::MoveTabLeft => {
                self.move_current_tab(-1);
                Ok(())
            },
            WindowOp::MoveTabRight => {
                self.move_current_tab(1);
                Ok(())
            },
            WindowOp::AlternateBuffer => self.alternate_buffer(),
        }
    }

    /// Carry out a command. `source` is what the path that it names leads
    /// to. Commands that are not for the workspace are refused with
    /// `Passthrough`.
    pub fn apply_command<F: Fn(Real32, Real32) -> Real32, G: Fn(Real32, i32, u16) -> Real32>(
        &mut self,
        cmd: ParsedCommand,
        source: Option<Source<D>>,
        times: &F,
        nudged: &G,
        caches: CacheSettings,
    ) -> (r: Result<(), WorkspaceError>)
        requires
            old(self).live(),
            old(self).win_ids.upcoming < u32::MAX,
            old(self).buf_ids.upcoming < u32::MAX,
            forall|a: Real32, b: Real32| call_requires(times, (a, b)),
            forall|x: Real32, d: i32, n: u16| call_requires(nudged, (x, d, n)),
        ensures
            final(self).inv(),
            command_result(
                *old(self),
                *final(self),
                cmd,
                source,
                times,
                nudged,
                caches,
                r,
            ),
    {
        match cmd {
            ParsedCommand::Nav(action) => self.apply_nav(action, 1, times, caches),
            ParsedCommand::Quit => {
                self.quit_requested = true;
                Ok(())
            },
            ParsedCommand::CloseWindow => {
                proof {
                    splits::lemma_tab_small(*self);
                }
                if self.tabs.len() == 1 && self.tabs[self.current_tab].tree.leaf_count() == 1 {
                    self.quit_requested = true;
                } else {
                    self.close_focused();
                }
                Ok(())
            },
            ParsedCommand::OnlyWindow => {
                self.only_focused();
                Ok(())
            },
            ParsedCommand::Split { direction, file } => if file.is_none() {
                self.split_focused(axis_of(direction), None)
            } else if source.is_none() {
                Err(WorkspaceError::NotSupplied)
            } else {
                self.split_focused(axis_of(direction), source)
            },
            ParsedCommand::Edit(_) => match source {
                Some(s) => self.edit_focused(s),
                None => Err(WorkspaceError::NotSupplied),
            },
            ParsedCommand::Explore { split, .. } => match source {
                Some(Source::Dir { cwd, items }) => self.explore(split, cwd, items),
                _ => Err(WorkspaceError::NotSupplied),
            },
            ParsedCommand::TabNew(file) => if file.is_none() {
                self.new_tab(None)
            } else if source.is_none() {
                Err(WorkspaceError::NotSupplied)
            } else {
                self.new_tab(source)
            },
            ParsedCommand::TabClose => {
                self.close_current_tab();
                Ok(())
            },
            ParsedCommand::TabOnly => {
                self.only_tab();
                Ok(())
            },
            ParsedCommand::Buffer(n) => self.show_buffer_n(n),
            ParsedCommand::BufferNext => self.cycle_buffer(1),
            ParsedCommand::BufferPrev => self.cycle_buffer(-1),
            ParsedCommand::TabMove(n) => {
                self.move_current_tab(n);
                Ok(())
            },
            ParsedCommand::Resize(n) => {
                self.resize_focused(Axis::Horizontal, n, nudged);
                Ok(())
            },
            ParsedCommand::VResize(n) => {
                self.resize_focused(Axis::Vertical, n, nudged);
                Ok(())
            },
            _ => Err(WorkspaceError::Passthrough),
        }
    }
}

} // verus!
