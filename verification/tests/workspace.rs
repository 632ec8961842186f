//! Windows, tabs, buffers and what a reader does in them.

use svreader::buffer::{Buffer, JumpEntry};
use svreader::docstate::DocState;
use svreader::commands::{ParsedCommand, SplitDirection};
use svreader::document::{MatchRect, PageError, PageLink, PageMetrics, PageSize, PdfRect};
use svreader::explorer::DirItem;
use svreader::keys::WindowOp;
use svreader::navigator::Action;
use svreader::number::Real32;
use svreader::painting::{click, frame_timing, render_time, route, Click, Painted, Route};
use svreader::reading::link_hit;
use svreader::renderer::Scales;
use svreader::sixel_write::ColorMode;
use svreader::cache::RenderCache;
use svreader::terminal::TermGeom;
use svreader::timings::FrameTiming;
use svreader::viewport::{Look, Viewport, ZoomMode};
use svreader::window::{Axis, CellRect, Direction, WindowId};
use svreader::workspace::{CacheSettings, LoadedPdf, Source, Workspace, WorkspaceError};

fn single(x: f32) -> Real32 {
    Real32 { bits: x.to_bits() }
}

fn float(x: Real32) -> f32 {
    f32::from_bits(x.bits)
}

fn times(a: Real32, b: Real32) -> Real32 {
    single(float(a) * float(b))
}

fn share(total: u16, ratio: Real32) -> u16 {
    (total as f32 * float(ratio)).round() as u16
}

fn nudged(ratio: Real32, delta: i32, total: u16) -> Real32 {
    single((float(ratio) + delta as f32 / total.max(1) as f32).clamp(0.1, 0.9))
}

#[derive(Debug)]
struct Paper {
    count: usize,
}

impl PageMetrics for Paper {
    fn page_count(&self) -> usize {
        self.count
    }

    fn page_size(&self, i: usize) -> Result<PageSize, PageError> {
        if i < self.count {
            Ok(PageSize { width: single(100.0), height: single(200.0) })
        } else {
            Err(PageError::OutOfRange { page_idx: i, count: self.count })
        }
    }

    fn composed_page_size(&self, _: usize, look: Look) -> Result<(u32, u32), PageError> {
        let scale = match look.zoom {
            ZoomMode::FitPage => 1.0,
            ZoomMode::FitWidth => look.screen_w as f32 / 100.0,
            ZoomMode::FitHeight => look.screen_h as f32 / 200.0,
            ZoomMode::Custom(m) => look.screen_w as f32 / 100.0 * float(m),
        };
        Ok(((100.0 * scale) as u32, (200.0 * scale) as u32))
    }
}

fn caches() -> CacheSettings {
    CacheSettings { enabled: true, pages: 16, frames: 32 }
}

fn loaded(path: &str) -> LoadedPdf<Paper> {
    LoadedPdf { path: path.to_string(), pdf: Paper { count: 10 }, state: DocState::default() }
}

fn pdf(path: &str) -> Source<Paper> {
    Source::Pdf { key: path.to_string(), loaded: Ok(loaded(path)) }
}

fn view() -> Viewport {
    Viewport { screen_w: 100, screen_h: 100, ..Viewport::default() }
}

fn reader() -> Workspace<Paper> {
    Workspace::with_pdf("/d/a.pdf".to_string(), loaded("/d/a.pdf"), view())
}

fn item(name: &str, is_dir: bool) -> DirItem {
    DirItem { name: name.to_string(), is_dir }
}

fn items() -> Vec<DirItem> {
    vec![item("b.pdf", false), item("a.pdf", false), item("sub", true), item("x.txt", false)]
}

fn rect() -> CellRect {
    CellRect { col: 0, row: 0, cols: 80, rows: 24 }
}

fn names(ws: &Workspace<Paper>) -> Vec<String> {
    ws.pool.slots.iter().map(|s| s.buf.display_name()).collect()
}

fn page(ws: &Workspace<Paper>) -> usize {
    ws.focused_window().viewport.page_idx
}

#[test]
fn a_document_opens_where_it_was_left() {
    let mut l = loaded("/d/a.pdf");
    l.state.last_page = 4;
    l.state.night_mode = true;
    let ws = Workspace::with_pdf("/d/a.pdf".to_string(), l, view());
    assert_eq!(page(&ws), 4);
    assert!(ws.focused_window().viewport.night_mode);
    assert_eq!(ws.tab_count(), 1);
    assert!(!ws.focused_is_explorer());
    assert_eq!(names(&ws), ["a.pdf"]);
}

#[test]
fn splits_share_the_buffer_and_closing_keeps_it() {
    let mut ws = reader();
    ws.split_focused(Axis::Vertical, None).unwrap();
    assert_eq!(ws.current_tab().tree.leaf_count(), 2);
    assert_eq!(ws.pool.slots.len(), 1);
    assert_eq!(ws.pool.slots[0].refs, 2);
    ws.close_focused();
    assert_eq!(ws.current_tab().tree.leaf_count(), 1);
    assert_eq!(ws.pool.slots[0].refs, 1);
    assert!(!ws.quit_requested);
    ws.close_focused();
    assert!(ws.quit_requested);
    assert!(ws.pool.slots.is_empty());
    assert_eq!(ws.closed.len(), 1);
}

#[test]
fn the_same_file_is_opened_once() {
    let mut ws = reader();
    ws.new_tab(Some(pdf("/d/a.pdf"))).unwrap();
    assert_eq!(ws.tab_count(), 2);
    assert_eq!(ws.current_tab_index(), 1);
    assert_eq!(ws.pool.slots.len(), 1);
    assert_eq!(ws.pool.slots[0].refs, 2);
    ws.edit_focused(pdf("/d/b.pdf")).unwrap();
    assert_eq!(names(&ws), ["a.pdf", "b.pdf"]);
    ws.close_current_tab();
    assert_eq!(ws.tab_count(), 1);
    assert_eq!(names(&ws), ["a.pdf"]);
}

#[test]
fn a_file_that_cannot_be_read_changes_no_window() {
    let mut ws = reader();
    let why = "PDF \"/d/bad.pdf\" is password-protected (unsupported)".to_string();
    let bad = Source::Pdf { key: "/d/bad.pdf".to_string(), loaded: Err(why.clone()) };
    assert_eq!(ws.edit_focused(bad), Err(WorkspaceError::CannotOpen(why)));
    let dir = Source::Dir { cwd: "/d\t".to_string(), items: vec![] };
    assert_eq!(
        ws.new_tab(Some(dir)),
        Err(WorkspaceError::CannotOpen("failed to open PDF \"/d\\t\"".to_string()))
    );
    assert_eq!(
        ws.apply_command(
            ParsedCommand::Edit("/d/b.pdf".to_string()),
            None,
            &times,
            &nudged,
            caches()
        ),
        Err(WorkspaceError::NotSupplied)
    );
    assert_eq!(names(&ws), ["a.pdf"]);
    assert_eq!(ws.focused_window().buffer, ws.pool.slots[0].buf.id());
}

#[test]
fn tabs_go_round_and_move() {
    let mut ws = reader();
    ws.new_tab(None).unwrap();
    ws.new_tab(None).unwrap();
    assert_eq!(ws.current_tab_index(), 2);
    ws.goto_tab_rel(1);
    assert_eq!(ws.current_tab_index(), 0);
    ws.goto_tab_rel(-1);
    assert_eq!(ws.current_tab_index(), 2);
    let id = ws.current_tab().focused;
    ws.move_current_tab(-1);
    assert_eq!(ws.current_tab_index(), 1);
    assert_eq!(ws.current_tab().focused, id);
    let order = |ws: &Workspace<Paper>| -> Vec<WindowId> { ws.tabs.iter().map(|t| t.focused).collect() };
    let before = order(&ws);
    ws.move_current_tab(2);
    assert_ne!(order(&ws), before);
    ws.move_current_tab(-2);
    assert_eq!(order(&ws), before);
    ws.only_tab();
    assert_eq!(ws.tab_count(), 1);
    assert_eq!(ws.current_tab().focused, id);
}

#[test]
fn focus_follows_the_layout() {
    let mut ws = reader();
    let left = ws.current_tab().focused;
    ws.split_focused(Axis::Vertical, None).unwrap();
    let right = ws.current_tab().focused;
    assert_ne!(left, right);
    let out = ws.layout(rect(), &share);
    assert_eq!(out.len(), 2);
    assert_eq!(out[0].1.cols + out[1].1.cols, 80);
    ws.focus_dir(Direction::Left, &share);
    assert_eq!(ws.current_tab().focused, left);
    ws.focus_dir(Direction::Left, &share);
    assert_eq!(ws.current_tab().focused, left);
    ws.focus_next(false);
    assert_eq!(ws.current_tab().focused, right);
    ws.set_focus_window(left);
    assert_eq!(ws.current_tab().focused, left);
    ws.set_focus_window(WindowId(99));
    assert_eq!(ws.current_tab().focused, left);
    ws.only_focused();
    assert_eq!(ws.current_tab().tree.leaf_count(), 1);
    assert_eq!(ws.current_tab().focused, left);
}

#[test]
fn buffers_are_switched() {
    let mut ws = reader();
    assert_eq!(ws.alternate_buffer(), Err(WorkspaceError::NoAlternate));
    let a = ws.focused_window().buffer;
    ws.split_focused(Axis::Vertical, None).unwrap();
    ws.edit_focused(pdf("/d/b.pdf")).unwrap();
    assert_ne!(ws.focused_window().buffer, a);
    assert_eq!(ws.alternate_buffer(), Ok(()));
    assert_eq!(ws.focused_window().buffer, a);
    assert_eq!(names(&ws), ["a.pdf"]);
    assert_eq!(ws.show_buffer_n(9), Err(WorkspaceError::NoSuchBuffer(9)));
    assert_eq!(ws.show_buffer_n(1), Ok(()));
    assert_eq!(ws.show_buffer_n(0), Ok(()));
    assert_eq!(ws.focused_window().buffer, a);
    assert_eq!(ws.cycle_buffer(1), Ok(()));
    assert_eq!(ws.focused_window().buffer, a);
    let mut dir = Workspace::<Paper>::with_explorer("/d".to_string(), items(), view());
    assert_eq!(dir.cycle_buffer(1), Err(WorkspaceError::NoBuffers));
}

#[test]
fn navigation_is_remembered_by_the_document() {
    let mut ws = reader();
    ws.apply_nav(Action::GotoPage(6), 1, &times, caches()).unwrap();
    assert_eq!(page(&ws), 6);
    let id = ws.focused_window().buffer;
    assert_eq!(ws.buffer_pdf(id).unwrap().state.last_page, 6);
    assert_eq!(ws.buffer_pdf(id).unwrap().state.cache_size, Some(16));
    assert_eq!(ws.buffer_pdf(id).unwrap().state.ecache_size, Some(32));
    ws.apply_nav(Action::NextPage, 2, &times, caches()).unwrap();
    assert_eq!(page(&ws), 8);
    ws.apply_nav(Action::NextPage, 99, &times, caches()).unwrap();
    assert_eq!(page(&ws), 9);
}

#[test]
fn a_jump_is_undone_and_redone() {
    let mut ws = reader();
    assert_eq!(ws.jump_back(&times, caches()), Ok(false));
    ws.jump_to_page(5, 0, 30, &times, caches()).unwrap();
    assert_eq!((page(&ws), ws.focused_window().viewport.y_off), (5, 30));
    assert_eq!(ws.jump_back(&times, caches()), Ok(true));
    assert_eq!(page(&ws), 0);
    assert_eq!(ws.jump_forward(&times, caches()), Ok(true));
    assert_eq!((page(&ws), ws.focused_window().viewport.y_off), (5, 30));
    assert_eq!(ws.jump_forward(&times, caches()), Ok(false));
    let id = ws.focused_window().buffer;
    let back = &ws.buffer_pdf(id).unwrap().back_stack;
    assert_eq!(back[..], [JumpEntry { page_idx: 0, x_off: 0, y_off: 0 }]);
}

#[test]
fn marks_are_set_reached_and_deleted() {
    let mut ws = reader();
    ws.apply_nav(Action::GotoPage(3), 1, &times, caches()).unwrap();
    ws.set_bookmark('q').unwrap();
    assert_eq!(ws.set_bookmark('1'), Err(WorkspaceError::NotALetter));
    ws.apply_nav(Action::FirstPage, 1, &times, caches()).unwrap();
    assert_eq!(ws.jump_bookmark('q', &times, caches()), Ok(true));
    assert_eq!(page(&ws), 3);
    assert_eq!(ws.jump_bookmark('z', &times, caches()), Ok(false));
    assert!(ws.delete_bookmark('q'));
    assert!(!ws.delete_bookmark('q'));
}

fn hit(page_idx: usize) -> MatchRect {
    let z = single(0.0);
    MatchRect { page_idx, rect: PdfRect { x0: z, y0: z, x1: single(5.0), y1: single(5.0) } }
}

#[test]
fn a_search_steps_round_its_hits() {
    let spot = |_: PageSize, _: Viewport, _: PdfRect| Some((0, 50));
    let mut ws = reader();
    ws.apply_nav(Action::GotoPage(2), 1, &times, caches()).unwrap();
    assert!(!ws.is_searching());
    ws.run_search("word".to_string(), vec![hit(1), hit(4), hit(6)], true, &spot, &times, caches()).unwrap();
    assert!(ws.is_searching());
    assert_eq!(page(&ws), 4);
    assert_eq!(ws.focused_window().viewport.y_off, 17);
    assert_eq!(ws.hit_counts(), (2, 3));
    assert_eq!(ws.step_search(true, &spot, &times, caches()), Ok(true));
    assert_eq!(page(&ws), 6);
    assert_eq!(ws.step_search(true, &spot, &times, caches()), Ok(true));
    assert_eq!(page(&ws), 1);
    assert_eq!(ws.step_search(false, &spot, &times, caches()), Ok(true));
    assert_eq!(page(&ws), 6);
    assert!(ws.drop_search());
    assert!(!ws.drop_search());
    assert_eq!(ws.step_search(true, &spot, &times, caches()), Ok(false));
}

fn link(x: f32, dest_page: usize, dest_point: Option<(Real32, Real32)>) -> PageLink {
    let bounds = PdfRect { x0: single(x), y0: single(0.0), x1: single(x + 10.0), y1: single(10.0) };
    PageLink { bounds, dest_page, dest_point }
}

#[test]
fn the_first_link_under_a_point_counts() {
    let links = vec![link(0.0, 1, None), link(5.0, 2, None)];
    assert_eq!(link_hit(&links, single(7.0), single(3.0)).unwrap().dest_page, 1);
    assert_eq!(link_hit(&links, single(12.0), single(3.0)).unwrap().dest_page, 2);
    assert!(link_hit(&links, single(50.0), single(3.0)).is_none());
    assert!(link_hit(&links, single(f32::NAN), single(3.0)).is_none());
}

#[test]
fn a_click_follows_a_link() {
    let point = |_: Viewport, _: PageSize, x: i32, y: i32| (single(x as f32), single(y as f32));
    let landing = |_: Viewport, _: PageSize, _: Real32, y: Real32| (0, float(y) as i32);
    let mut ws = reader();
    let id = ws.current_tab().focused;
    let buf = ws.focused_window().buffer;
    let target = link(0.0, 5, Some((single(0.0), single(40.0))));
    ws.buffer_pdf_mut(buf).unwrap().store_links(0, vec![target]);
    ws.click_at(id, 50, 50, &point, &landing, &times, caches()).unwrap();
    assert_eq!(page(&ws), 0);
    ws.click_at(id, 3, 3, &point, &landing, &times, caches()).unwrap();
    assert_eq!(page(&ws), 5);
    assert_eq!(ws.focused_window().viewport.y_off, 40);
    assert_eq!(ws.jump_back(&times, caches()), Ok(true));
    assert_eq!(page(&ws), 0);
}

#[test]
fn a_directory_is_browsed() {
    let mut ws = Workspace::<Paper>::with_explorer("/d".to_string(), items(), view());
    assert!(ws.focused_is_explorer());
    assert_eq!(ws.explorer_target(), Some(("/".to_string(), true)));
    ws.explorer_move(1);
    assert_eq!(ws.explorer_target(), Some(("/d/sub".to_string(), true)));
    ws.explorer_last();
    assert_eq!(ws.explorer_target(), Some(("/d/b.pdf".to_string(), false)));
    ws.explorer_first();
    ws.explorer_move(1);
    let sub = Source::Dir { cwd: "/d/sub".to_string(), items: vec![item("c.pdf", false)] };
    ws.explorer_activate(sub).unwrap();
    let id = ws.focused_window().buffer;
    assert_eq!(ws.buffer(id).unwrap().as_explorer().unwrap().cwd, "/d/sub");
    ws.explorer_parent(Some(("/d".to_string(), items()))).unwrap();
    assert_eq!(ws.buffer(id).unwrap().as_explorer().unwrap().cwd, "/d");
    ws.explorer_last();
    ws.explorer_activate(pdf("/d/b.pdf")).unwrap();
    assert!(!ws.focused_is_explorer());
    assert_eq!(names(&ws), ["b.pdf"]);
}

#[test]
fn a_cleared_search_keeps_its_direction_and_counts_on() {
    let mut ws = reader();
    let id = ws.focused_window().buffer;
    let z = single(0.0);
    let hit = MatchRect { page_idx: 1, rect: PdfRect { x0: z, y0: z, x1: z, y1: z } };
    ws.buffer_pdf_mut(id).unwrap().run_search("word".to_string(), vec![hit], 0, false);
    let before = ws.buffer_pdf(id).unwrap().search.version;
    assert!(ws.drop_search());
    let search = &ws.buffer_pdf(id).unwrap().search;
    assert_eq!(search.version, before + 1);
    assert!(!search.forward);
    assert!(!ws.drop_search());
    assert_eq!(ws.buffer_pdf(id).unwrap().search.version, before + 1);
}

#[test]
fn a_buffer_that_is_gone_is_named() {
    let mut ws = reader();
    ws.edit_focused(pdf("/d/b.pdf")).unwrap();
    ws.alternate_buffer().unwrap();
    let id = ws.focused_window().buffer;
    assert_eq!(
        ws.apply_nav(Action::NextPage, 1, &times, caches()),
        Err(WorkspaceError::BufferGone(id))
    );
}

#[test]
fn commands_reach_the_workspace() {
    let mut ws = reader();
    let run = |ws: &mut Workspace<Paper>, c: ParsedCommand, s: Option<Source<Paper>>| {
        ws.apply_command(c, s, &times, &nudged, caches())
    };
    run(&mut ws, ParsedCommand::Nav(Action::GotoPage(2)), None).unwrap();
    assert_eq!(page(&ws), 2);
    let split = ParsedCommand::Split { direction: SplitDirection::Horizontal, file: None };
    run(&mut ws, split, None).unwrap();
    assert_eq!(ws.current_tab().tree.leaf_count(), 2);
    run(&mut ws, ParsedCommand::OnlyWindow, None).unwrap();
    assert_eq!(ws.current_tab().tree.leaf_count(), 1);
    run(&mut ws, ParsedCommand::TabNew(None), None).unwrap();
    assert_eq!(ws.tab_count(), 2);
    run(&mut ws, ParsedCommand::TabMove(-1), None).unwrap();
    assert_eq!(ws.current_tab_index(), 0);
    run(&mut ws, ParsedCommand::TabOnly, None).unwrap();
    assert_eq!(ws.tab_count(), 1);
    assert_eq!(run(&mut ws, ParsedCommand::Buffer(7), None), Err(WorkspaceError::NoSuchBuffer(7)));
    assert_eq!(run(&mut ws, ParsedCommand::CopyPage, None), Err(WorkspaceError::Passthrough));
    run(&mut ws, ParsedCommand::CloseWindow, None).unwrap();
    assert!(ws.quit_requested);
}

#[test]
fn window_keys_reach_the_workspace() {
    let mut ws = reader();
    let _ = ws.layout(rect(), &share);
    ws.apply_window_op(WindowOp::SplitVertical, &share, &nudged).unwrap();
    ws.apply_window_op(WindowOp::ResizeHorizontal(8), &share, &nudged).unwrap();
    let out = ws.layout(rect(), &share);
    assert_ne!(out[0].1.cols, out[1].1.cols);
    ws.apply_window_op(WindowOp::Equalize, &share, &nudged).unwrap();
    let out = ws.layout(rect(), &share);
    assert_eq!(out[0].1.cols, out[1].1.cols);
    ws.apply_window_op(WindowOp::Close, &share, &nudged).unwrap();
    assert_eq!(ws.current_tab().tree.leaf_count(), 1);
}

#[test]
fn a_painted_window_is_not_painted_again() {
    let mut ws = reader();
    let id = ws.current_tab().focused;
    let job = ws.paint_job(id, rect()).unwrap();
    assert!(!job.directory);
    assert_eq!(job.leaves, None);
    let timing = FrameTiming { render: 1, compose: 1, encode: 1, write: 1, other: 1 };
    let p = Painted { timing, dpi: single(72.0), pixel_height: 41, cell_px_h: 20 };
    ws.note_painted(id, rect(), p);
    assert_eq!(ws.focused_window().last_sixel_rows, 3);
    assert!(ws.paint_job(id, rect()).is_none());
    let smaller = CellRect { rows: 20, ..rect() };
    assert_eq!(ws.paint_job(id, smaller).unwrap().leaves, Some(rect()));
    ws.note_cleared();
    assert_eq!(ws.paint_job(id, rect()).unwrap().leaves, None);
    assert!(ws.paint_job(WindowId(77), rect()).is_none());
}

#[test]
fn frames_are_routed_and_timed() {
    assert_eq!(route(false, false, true), Route::Postpone);
    assert_eq!(route(false, true, true), Route::Cached);
    assert_eq!(route(false, false, false), Route::Cached);
    assert_eq!(route(true, true, false), Route::Fresh);
    assert_eq!(render_time(Route::Cached, true, 9, 2, 3), 0);
    assert_eq!(render_time(Route::Cached, false, 9, 2, 3), 4);
    assert_eq!(render_time(Route::Cached, false, 9, 0, 3), 0);
    assert_eq!(render_time(Route::Fresh, false, 9, 0, 3), 6);
    assert_eq!(render_time(Route::Fresh, false, 4, 2, 3), 0);
    assert_eq!(frame_timing(20, 4, 2, 3, 5).total(), 20);
    assert_eq!(frame_timing(20, 4, 2, 3, 5).other, 6);
}

#[test]
fn neighbouring_pages_are_rendered_ahead() {
    let scales = |_: Viewport, _: PageSize| Scales { display: single(1.0), raster: single(1.0), close: true };
    let mut ws = reader();
    ws.apply_nav(Action::GotoPage(1), 1, &times, caches()).unwrap();
    let cache = RenderCache::new(8);
    let mut pages: Vec<usize> = ws.prefetches(&cache, &scales, 2).iter().map(|p| p.viewport.page_idx).collect();
    pages.sort();
    assert_eq!(pages, [0, 2, 3]);
    let far = ws.prefetches(&cache, &scales, usize::MAX);
    assert_eq!(far.len(), 9);
    assert!(ws.prefetches(&cache, &scales, 0).is_empty());
    assert_eq!(ws.refill_radius(false, 8), None);
}

#[test]
fn clicks_find_their_window() {
    let left = CellRect { cols: 40, ..rect() };
    let right = CellRect { col: 40, cols: 40, ..rect() };
    let layout = vec![(WindowId(1), left), (WindowId(2), right)];
    let geom = TermGeom { cols: 80, rows: 24, px_w: 800, px_h: 480, cell_px_w: 10, cell_px_h: 20 };
    assert_eq!(click(&layout, WindowId(1), 45, 3, geom), Click::Focus(WindowId(2)));
    assert_eq!(
        click(&layout, WindowId(2), 45, 3, geom),
        Click::Follow { window: WindowId(2), x: 55, y: 70 }
    );
    assert_eq!(click(&layout, WindowId(2), 45, 30, geom), Click::Nothing);
}

#[test]
fn colours_and_view_are_reset() {
    let mut ws = reader();
    ws.set_colors(ColorMode::Grayscale);
    assert_eq!(ws.focused_window().color_mode, ColorMode::Grayscale);
    ws.apply_nav(Action::SetZoom(ZoomMode::FitHeight), 1, &times, caches()).unwrap();
    ws.reset_view(&times, caches()).unwrap();
    assert_eq!(ws.focused_window().viewport.zoom, Viewport::default().zoom);
}

#[test]
fn old_jumps_are_forgotten() {
    let mut ws = reader();
    for i in 0..150 {
        ws.jump_to_page(i % 10, 0, 0, &times, caches()).unwrap();
    }
    let id = ws.focused_window().buffer;
    assert_eq!(ws.buffer_pdf(id).unwrap().back_stack.len(), 100);
}

#[test]
fn a_place_survives_closing_and_opening() {
    let mut ws = reader();
    ws.apply_nav(Action::SetZoom(ZoomMode::FitHeight), 1, &times, caches()).unwrap();
    ws.apply_nav(Action::RotateCw, 1, &times, caches()).unwrap();
    ws.apply_nav(Action::GotoPage(7), 1, &times, caches()).unwrap();
    ws.apply_nav(Action::ToggleNight, 1, &times, caches()).unwrap();
    ws.sync_all(caches());
    let left = ws.focused_window().viewport;
    ws.close_focused();
    let mut again = loaded("/d/a.pdf");
    match ws.closed.pop().unwrap() {
        Buffer::Pdf(p) => again.state = p.state,
        Buffer::Explorer(_) => panic!("a document was closed"),
    }
    let other_screen = Viewport { screen_w: 50, screen_h: 60, ..Viewport::default() };
    let ws = Workspace::with_pdf("/d/a.pdf".to_string(), again, other_screen);
    let back = ws.focused_window().viewport;
    assert_eq!(back, Viewport { screen_w: 50, screen_h: 60, ..left });
    assert_eq!((ws.resize_pages, ws.resize_frames), (Some(16), Some(32)));
}

#[test]
fn a_window_is_changed_in_place() {
    let mut ws = reader();
    ws.focused_window_mut().color_mode = ColorMode::Grayscale;
    assert_eq!(ws.focused_window().color_mode, ColorMode::Grayscale);
    ws.mark_all_dirty();
    assert!(ws.focused_window().dirty);
    ws.propagate_geometry(10, 20, rect(), &share);
    let v = ws.focused_window().viewport;
    assert_eq!((v.screen_w, v.screen_h), (800, 460));
    let id = ws.current_tab().focused;
    assert_eq!(ws.resync_window_viewport(id, 300, 200, &times), Ok(true));
    assert_eq!(ws.resync_window_viewport(id, 300, 200, &times), Ok(false));
    assert_eq!(ws.resync_window_viewport(WindowId(9), 1, 1, &times), Ok(false));
}
