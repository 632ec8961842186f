//! Keys, modes, commands, completions, messages and the status bar.

use svreader::buffer::BufferId;
use svreader::commands::{CommandError, CommandRegistry, ParsedCommand};
use svreader::control::Tools;
use svreader::docstate::DocState;
use svreader::document::{MatchRect, Outline, PageError, PageMetrics, PageSize, PdfRect};
use svreader::events::{Event, Response, Scene};
use svreader::execution::Chore;
use svreader::explorer::DirItem;
use svreader::export::{
    clipboard_tools, document_text, frame_file, pick_editor, text_file, to_png, ClipboardTool,
    PngError,
};
use svreader::headless::{
    parse_key_sequence, parse_screen, parse_special, parse_zoom, print_outline, simulate,
    KeySequenceError, SizeError, ZoomArg,
};
use svreader::keys::Key;
use svreader::number::Real32;
use svreader::palette::{
    accept_completion, compute_completions, cycle_completion, expand_home_path, is_path_command,
    split_path_prefix, wanted_dir, PaletteCompletion,
};
use svreader::painting::Click;
use svreader::picture::Image;
use svreader::session::{to_key, Browse, KeyCode, KeyPress, Mode, Request, Session, MESSAGE_NANOS};
use svreader::status::{draw_status, draw_tab_bar, tab_title, Figures};
use svreader::terminal::TermGeom;
use svreader::viewport::{Look, Viewport, ZoomMode};
use svreader::window::{CellRect, WindowId};
use svreader::workspace::{CacheSettings, LoadedPdf, Workspace, WorkspaceError};

fn single(x: f32) -> Real32 {
    Real32 { bits: x.to_bits() }
}

fn float(x: Real32) -> f32 {
    f32::from_bits(x.bits)
}

fn times(a: Real32, b: Real32) -> Real32 {
    single(float(a) * float(b))
}

fn share(total: u16, ratio: Real32) -> u16 {
    (total as f32 * float(ratio)).round() as u16
}

fn nudged(ratio: Real32, delta: i32, total: u16) -> Real32 {
    single((float(ratio) + delta as f32 / total.max(1) as f32).clamp(0.1, 0.9))
}

fn spot(_: PageSize, _: Viewport, _: PdfRect) -> Option<(i32, i32)> {
    Some((0, 0))
}

type Toolbox = Tools<
    fn(Real32, Real32) -> Real32,
    fn(u16, Real32) -> u16,
    fn(Real32, i32, u16) -> Real32,
    fn(PageSize, Viewport, PdfRect) -> Option<(i32, i32)>,
>;

fn tools() -> Toolbox {
    Tools { times, share, nudged, spot }
}

#[derive(Debug)]
struct Paper;

impl PageMetrics for Paper {
    fn page_count(&self) -> usize {
        10
    }

    fn page_size(&self, i: usize) -> Result<PageSize, PageError> {
        if i < 10 {
            Ok(PageSize { width: single(100.0), height: single(200.0) })
        } else {
            Err(PageError::OutOfRange { page_idx: i, count: 10 })
        }
    }

    fn composed_page_size(&self, _: usize, _: Look) -> Result<(u32, u32), PageError> {
        Ok((100, 200))
    }
}

fn caches() -> CacheSettings {
    CacheSettings { enabled: true, pages: 16, frames: 32 }
}

fn reader() -> Workspace<Paper> {
    let view = Viewport { screen_w: 100, screen_h: 100, ..Viewport::default() };
    let loaded = LoadedPdf { path: "/d/a.pdf".to_string(), pdf: Paper, state: DocState::default() };
    Workspace::with_pdf("/d/a.pdf".to_string(), loaded, view)
}

fn press(code: KeyCode) -> KeyPress {
    KeyPress { code, ctrl: false, alt: false, shift: false, more: false }
}

fn typed(s: &mut Session, text: &str) -> Request {
    let mut last = Request::Nothing;
    for c in text.chars() {
        last = s.on_key(press(KeyCode::Char(c)), false, &vec![]);
    }
    last
}

fn page(ws: &Workspace<Paper>) -> usize {
    ws.focused_window().viewport.page_idx
}

#[test]
fn keys_of_the_terminal_are_told_apart() {
    let ctrl = |c: char| KeyPress { ctrl: true, ..press(KeyCode::Char(c)) };
    assert_eq!(to_key(press(KeyCode::Char('j'))), Some(Key::Char('j')));
    assert_eq!(to_key(ctrl('w')), Some(Key::Ctrl('w')));
    assert_eq!(to_key(press(KeyCode::Esc)), Some(Key::Esc));
    assert_eq!(to_key(press(KeyCode::Unknown)), None);
}

#[test]
fn a_chord_is_shown_while_it_is_typed() {
    let mut s = Session::new(true);
    assert!(matches!(typed(&mut s, "12g"), Request::Nothing));
    assert_eq!(s.pending_hint, "12g");
    assert!(matches!(typed(&mut s, "g"), Request::Navigate { .. }));
    assert_eq!(s.pending_hint, "");
}

#[test]
fn escape_leaves_every_mode() {
    for opening in [":", "/", "?"] {
        let mut s = Session::new(true);
        typed(&mut s, opening);
        assert!(!matches!(s.mode, Mode::Normal));
        s.on_key(press(KeyCode::Esc), false, &vec![]);
        assert!(matches!(s.mode, Mode::Normal));
    }
}

#[test]
fn a_command_line_is_typed_and_run() {
    let mut s = Session::new(true);
    typed(&mut s, ":goxx");
    s.on_key(press(KeyCode::Backspace), false, &vec![]);
    match &s.mode {
        Mode::Command { input, chosen } => assert_eq!((input.as_str(), *chosen), ("gox", None)),
        _ => panic!("the palette is open"),
    }
    match s.on_key(press(KeyCode::Enter), false, &vec![]) {
        Request::Execute(line) => assert_eq!(line, "gox"),
        _ => panic!("a command runs"),
    }
    assert!(matches!(s.mode, Mode::Normal));
}

#[test]
fn a_completion_is_taken_over_before_it_runs() {
    let row = |t: &str| PaletteCompletion { display: t.to_string(), insert: t.to_string(), replace_from: 0 };
    let rows = vec![row("night"), row("nav")];
    let mut s = Session::new(true);
    s.on_key(press(KeyCode::Char(':')), false, &rows);
    s.on_key(press(KeyCode::Char('n')), false, &rows);
    s.on_key(press(KeyCode::Tab), false, &rows);
    s.on_key(press(KeyCode::Tab), false, &rows);
    assert!(matches!(s.on_key(press(KeyCode::Enter), false, &rows), Request::Nothing));
    match &s.mode {
        Mode::Command { input, chosen } => assert_eq!((input.as_str(), *chosen), ("nav", None)),
        _ => panic!("the line is reviewed"),
    }
}

#[test]
fn a_search_is_typed_and_run() {
    let mut s = Session::new(true);
    typed(&mut s, "/word");
    match s.on_key(press(KeyCode::Enter), false, &vec![]) {
        Request::Search { query, forward } => assert_eq!((query.as_str(), forward), ("word", true)),
        _ => panic!("a search runs"),
    }
}

#[test]
fn directories_have_keys_of_their_own() {
    let mut s = Session::new(true);
    let key = |s: &mut Session, c: KeyCode| s.on_key(press(c), true, &vec![]);
    assert!(matches!(key(&mut s, KeyCode::Char('j')), Request::Browse(Browse::Down)));
    assert!(matches!(key(&mut s, KeyCode::Char('k')), Request::Browse(Browse::Up)));
    assert!(matches!(key(&mut s, KeyCode::Enter), Request::Browse(Browse::Activate)));
}

#[test]
fn a_message_goes_after_a_while() {
    let mut s = Session::new(true);
    s.set_message("hello".to_string(), 10);
    assert_eq!(s.message.as_deref(), Some("hello"));
    s.expire(10 + MESSAGE_NANOS - 1);
    assert!(s.message.is_some());
    s.expire(10 + MESSAGE_NANOS);
    assert!(s.message.is_none());
}

#[test]
fn keys_move_the_reader() {
    let mut s = Session::new(true);
    let mut ws = reader();
    let req = typed(&mut s, "4G");
    assert_eq!(s.carry_out(&mut ws, &req, &tools(), caches(), 0), Ok(true));
    assert_eq!(page(&ws), 3);
    let req = typed(&mut s, "mq");
    assert_eq!(s.carry_out(&mut ws, &req, &tools(), caches(), 0), Ok(true));
    assert_eq!(s.message.as_deref(), Some("mark 'q' set"));
    let req = typed(&mut s, "gg");
    assert_eq!(s.carry_out(&mut ws, &req, &tools(), caches(), 0), Ok(true));
    assert_eq!(page(&ws), 0);
    let req = typed(&mut s, "'q");
    assert_eq!(s.carry_out(&mut ws, &req, &tools(), caches(), 0), Ok(true));
    assert_eq!(page(&ws), 3);
    let req = Request::JumpBack;
    assert_eq!(s.carry_out(&mut ws, &req, &tools(), caches(), 0), Ok(true));
    assert_eq!(page(&ws), 0);
    let req = Request::Execute("q".to_string());
    assert_eq!(s.carry_out(&mut ws, &req, &tools(), caches(), 0), Ok(false));
}

#[test]
fn commands_speak() {
    let mut s = Session::new(true);
    let mut ws = reader();
    let mut run = |s: &mut Session, line: &str| {
        let cmd = CommandRegistry::default().parse(line, None).unwrap();
        s.execute_command(&mut ws, cmd, None, (true, false), &tools(), caches(), 0)
    };
    assert_eq!(run(&mut s, "cache off"), Chore::PagesOn(false));
    assert_eq!(s.message.as_deref(), Some("RCache off"));
    assert_eq!(run(&mut s, "cache toggle"), Chore::PagesOn(false));
    assert_eq!(run(&mut s, "ecache toggle"), Chore::FramesOn(true));
    assert_eq!(s.message.as_deref(), Some("ECache on"));
    assert_eq!(s.prefetch_reach, 2);
    assert_eq!(run(&mut s, "prefetch 5"), Chore::Nothing);
    assert_eq!((s.prefetch_reach, s.message.as_deref()), (5, Some("prefetch 5")));
    assert_eq!(run(&mut s, "copy"), Chore::CopyPage);
    assert_eq!(run(&mut s, "back"), Chore::Nothing);
    assert_eq!(s.message.as_deref(), Some("jump list empty"));
    assert_eq!(run(&mut s, "marks"), Chore::Nothing);
    assert_eq!(s.message.as_deref(), Some("no marks set (use m{a-z} to set one)"));
    assert_eq!(run(&mut s, "toc"), Chore::ListToc);
    assert_eq!(run(&mut s, "colors gray"), Chore::Nothing);
    assert_eq!(s.message.as_deref(), Some("colors gray"));
    assert_eq!(run(&mut s, "b 9"), Chore::Nothing);
    assert_eq!(s.message.as_deref(), Some(":b 9: no such buffer"));
    assert_eq!(run(&mut s, "help"), Chore::Nothing);
    assert!(matches!(s.mode, Mode::Help));
}

#[test]
fn an_outline_is_listed_and_followed() {
    let mut s = Session::new(true);
    let mut ws = reader();
    s.enter_toc_mode(&ws, &vec![], 0);
    assert_eq!(s.message.as_deref(), Some("document has no outline"));
    let leaf = |t: &str, p: usize| Outline { title: t.to_string(), page: Some(p), children: vec![] };
    s.enter_toc_mode(&ws, &vec![leaf("One", 0), leaf("Two", 4), leaf("Three", 8)], 0);
    s.on_key(press(KeyCode::Char('j')), false, &vec![]);
    let req = s.on_key(press(KeyCode::Enter), false, &vec![]);
    assert!(matches!(s.mode, Mode::Normal));
    assert_eq!(s.carry_out(&mut ws, &req, &tools(), caches(), 0), Ok(true));
    assert_eq!(page(&ws), 4);
}

#[test]
fn marks_are_listed_and_deleted() {
    let mut s = Session::new(true);
    let mut ws = reader();
    ws.set_bookmark('b').unwrap();
    ws.set_bookmark('a').unwrap();
    s.enter_marks_mode(&ws, 0);
    let req = s.on_key(press(KeyCode::Char('d')), false, &vec![]);
    assert!(matches!(req, Request::DeleteMark('a')));
    assert_eq!(s.carry_out(&mut ws, &req, &tools(), caches(), 0), Ok(true));
    match &s.mode {
        Mode::Marks { marks, .. } => assert_eq!(marks.len(), 1),
        _ => panic!("the list stays open"),
    }
}

#[test]
fn a_search_tells_its_hits() {
    let mut s = Session::new(true);
    let mut ws = reader();
    let z = single(0.0);
    let hit = |page_idx| MatchRect { page_idx, rect: PdfRect { x0: z, y0: z, x1: z, y1: z } };
    s.run_search(&mut ws, "wo\"rd", vec![], true, &tools(), caches(), 0);
    assert_eq!(s.message.as_deref(), Some("no match for \"wo\\\"rd\""));
    s.run_search(&mut ws, "word", vec![hit(2), hit(5)], true, &tools(), caches(), 0);
    assert_eq!(s.message.as_deref(), Some("/word  [1/2]"));
    assert_eq!(page(&ws), 2);
}

#[test]
fn errors_have_words() {
    let cases = [
        (PageError::OutOfRange { page_idx: 7, count: 3 }, "page 7 out of range (3)"),
        (PageError::Unreadable("failed to load page 3".to_string()), "failed to load page 3"),
        (PageError::TooLarge, "page is too large to draw"),
        (PageError::OtherLook, "page was measured for another view"),
    ];
    for (e, words) in cases {
        assert_eq!(e.message(), words);
        assert_eq!(WorkspaceError::Page(e).message(), words);
    }
    let why = "failed to open PDF \"/d/x.pdf\"";
    assert_eq!(WorkspaceError::CannotOpen(why.to_string()).message(), why);
    assert_eq!(
        WorkspaceError::BufferGone(BufferId(3)).message(),
        "buffer BufferId(3) no longer in pool"
    );
    assert_eq!(WorkspaceError::NotSupplied.message(), "path was not looked up");
    assert_eq!(WorkspaceError::NotALetter.message(), "mark must be a letter");
    assert_eq!(CommandError::Empty.message(), "empty command");
    let unknown = CommandError::Unknown { name: "zz".to_string() };
    assert_eq!(unknown.message(), "unknown command: zz");
    let usage = CommandError::Usage { usage: ":goto N", got: Some("a\tb".to_string()) };
    assert_eq!(usage.message(), ":goto N (got \"a\\tb\")");
}

#[test]
fn commands_that_make_no_sense_are_refused() {
    let r = CommandRegistry::default();
    assert_eq!(r.parse("  ", None), Err(CommandError::Empty));
    assert_eq!(r.parse("vertical split", None), Err(CommandError::OnlyVerticalResize));
    assert_eq!(r.parse("zz 1", None), Err(CommandError::Unknown { name: "zz".to_string() }));
    assert!(matches!(r.parse("goto x", None), Err(CommandError::Usage { .. })));
    assert_eq!(r.parse("  goto 5\t", None), r.parse("goto 5", None));
    assert_eq!(r.parse("vertical  resize -3", None), Ok(ParsedCommand::VResize(-3)));
    assert_eq!(r.parse("e ~/x.pdf", Some("/home/u")), Ok(ParsedCommand::Edit("/home/u/x.pdf".to_string())));
}

#[test]
fn completions_are_offered() {
    let r = CommandRegistry::default();
    let rows = compute_completions("tabn", &r, &vec![]);
    assert!(rows.iter().any(|c| accept_completion("tabn", c).starts_with("tabnew")));
    assert!(is_path_command("edit"));
    assert!(!is_path_command("goto"));
    assert_eq!(split_path_prefix("a/b/c"), ("a/b/".to_string(), "c".to_string()));
    assert_eq!(split_path_prefix("c"), (String::new(), "c".to_string()));
    assert_eq!(expand_home_path("~/x/", Some("/h")), "/h/x/");
    assert_eq!(wanted_dir("tabn", None), None);
    let items = vec![
        DirItem { name: "paper.pdf".to_string(), is_dir: false },
        DirItem { name: "past".to_string(), is_dir: true },
        DirItem { name: "other.pdf".to_string(), is_dir: false },
    ];
    let rows = compute_completions("e d/pa", &r, &items);
    let lines: Vec<String> = rows.iter().map(|c| accept_completion("e d/pa", c)).collect();
    assert_eq!(lines, ["e d/past/", "e d/paper.pdf"]);
}

#[test]
fn going_round_the_completions_returns() {
    let mut chosen = None;
    for _ in 0..3 {
        chosen = cycle_completion(3, chosen, false);
    }
    assert_eq!(chosen, Some(2));
    assert_eq!(cycle_completion(3, chosen, false), Some(0));
    assert_eq!(cycle_completion(3, Some(0), true), Some(2));
    assert_eq!(cycle_completion(0, None, false), None);
}

fn geom() -> TermGeom {
    TermGeom { cols: 80, rows: 24, px_w: 800, px_h: 480, cell_px_w: 10, cell_px_h: 20 }
}

#[test]
fn the_status_bar_says_where_the_reader_is() {
    let mut ws = reader();
    ws.start_on(3);
    let fig = Figures {
        zoom_percent: "100".to_string(),
        dpi: 72,
        quality: Some(50),
        pages: (1, 16),
        frames: (2, 32),
    };
    let wide = TermGeom { cols: 200, ..geom() };
    let s = draw_status(&ws, &fig, "3g", &Some("done".to_string()), wide);
    let start = "\x1b[24;1H\x1b[2K\x1b[48;5;236m\x1b[38;5;252m a.pdf | 3/10 | fit-w | 0° dpi:72 q:50% RCache:1/16 ECache:2/32 [3g] -- done ";
    assert!(s.starts_with(start), "{}", s);
    assert!(s.ends_with("\x1b[0m"));
    assert_eq!(tab_title(&ws, 0), "a.pdf");
    assert_eq!(draw_tab_bar(&ws, geom()), "");
    ws.new_tab(None).unwrap();
    let bar = draw_tab_bar(&ws, geom());
    assert!(bar.starts_with("\x1b[1;1H\x1b[2K\x1b[48;5;236m\x1b[38;5;244m a.pdf \x1b[0m"));
}

#[test]
fn events_become_responses() {
    let mut s = Session::new(true);
    let rect = CellRect { col: 0, row: 0, cols: 80, rows: 23 };
    let scene = Scene { layout: vec![(WindowId(1), rect)], focused: WindowId(1), directory: false, geom: geom() };
    assert!(matches!(
        s.on_event(Event::Resize { cols: 100, rows: 30 }, &scene, &vec![]),
        Response::Measure { cols: 100, rows: 30 }
    ));
    assert!(matches!(
        s.on_event(Event::Click { col: 2, row: 3 }, &scene, &vec![]),
        Response::Point(Click::Follow { window: WindowId(1), x: 25, y: 70 })
    ));
    assert!(matches!(s.on_event(Event::Ignored, &scene, &vec![]), Response::Nothing));
    assert!(matches!(
        s.on_event(Event::Key(press(KeyCode::Char('q'))), &scene, &vec![]),
        Response::Ask(Request::CloseWindow)
    ));
    s.begin_frame();
    s.on_event(Event::FocusGained, &scene, &vec![]);
    assert!(s.full_repaint);
}

#[test]
fn arguments_are_read() {
    assert_eq!(parse_screen("640x480"), Ok((640, 480)));
    assert_eq!(parse_screen("640"), Err(SizeError::NoSeparator));
    assert_eq!(parse_screen("640xa"), Err(SizeError::NotANumber));
    assert!(matches!(parse_zoom("fit-w"), Some(ZoomArg::Fit(ZoomMode::FitWidth))));
    assert!(matches!(parse_zoom("page"), Some(ZoomArg::Fit(ZoomMode::FitPage))));
    assert!(matches!(parse_zoom("150%"), Some(ZoomArg::Percent(p)) if p == "150"));
    assert!(parse_zoom("wide").is_none());
}

#[test]
fn key_sequences_are_read() {
    assert_eq!(parse_special("C-w"), Some(Key::Ctrl('w')));
    assert_eq!(parse_key_sequence("j<CR>G").unwrap(), [Key::Char('j'), Key::Enter, Key::Char('G')]);
    assert!(matches!(parse_key_sequence("j<Esc"), Err(KeySequenceError::Unclosed)));
    assert!(matches!(parse_key_sequence("<Foo>"), Err(KeySequenceError::UnknownKey(k)) if k == "Foo"));
}

#[test]
fn keys_are_simulated() {
    let keys = parse_key_sequence("G3G").unwrap();
    let start = Viewport { screen_w: 100, screen_h: 100, ..Viewport::default() };
    let (views, e) = simulate(&Paper, start, &keys, &times);
    assert!(e.is_none());
    let pages: Vec<usize> = views.iter().map(|v| v.page_idx).collect();
    assert_eq!(pages, [9, 2]);
}

#[test]
fn an_outline_is_printed() {
    let leaf = Outline { title: "Part".to_string(), page: None, children: vec![] };
    let top = Outline { title: "One".to_string(), page: Some(0), children: vec![leaf] };
    let mut out = Vec::new();
    print_outline(&vec![top], 0, &mut out);
    assert_eq!(out.len(), 2);
    assert!(out[0].contains("One") && out[0].contains('1'));
    assert!(out[1].starts_with("  ") && out[1].contains("Part"));
}

#[test]
fn a_page_becomes_a_file() {
    let png = to_png(&Image::new(2, 3)).unwrap();
    assert_eq!(png[..8], [0x89, b'P', b'N', b'G', 0x0D, 0x0A, 0x1A, 0x0A]);
    assert_eq!(png[16..24], [0, 0, 0, 2, 0, 0, 0, 3]);
    assert_eq!(to_png(&Image::new(0, 3)), Err(PngError::Blank));
    assert_eq!(frame_file(7), "frame_0007.png");
    assert_eq!(frame_file(12345), "frame_12345.png");
}

#[test]
fn the_document_becomes_text() {
    let pages = vec![Ok("first".to_string()), Err("bad".to_string())];
    let s = document_text(&pages);
    assert!(s.contains("first") && s.contains("bad"));
    assert_eq!(text_file("/d/a.pdf", 42), "svreader-a-42.txt");
}

#[test]
fn helpers_are_chosen() {
    assert_eq!(clipboard_tools(true)[0], ClipboardTool::WlCopy);
    assert_eq!(clipboard_tools(false)[0], ClipboardTool::Xclip);
    assert_eq!(ClipboardTool::Xclip.name(), "xclip");
    let none = (false, false, false);
    assert_eq!(pick_editor(Some("ed".to_string()), None, none), "ed");
    assert_eq!(pick_editor(None, Some("vis".to_string()), none), "vis");
    assert_eq!(pick_editor(None, None, (false, true, true)), "vi");
}
