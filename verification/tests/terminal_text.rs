//! What is written to the terminal and read from it.

use svreader::capabilities::{attributes_query, probe_sixel};
use svreader::docstate::Bookmark;
use svreader::document::Outline;
use svreader::explorer::{DirItem, ExplorerBuffer};
use svreader::buffer::BufferId;
use svreader::lists::{
    draw_marks_overlay, draw_toc_overlay, flatten_outline, initial_line, list_move, mark_entries,
};
use svreader::screen::{
    body_rect, draw_explorer, draw_help, draw_palette, draw_search_prompt, pixel_size,
    prompt_cursor, rows_covered, startup_message, truncate_cols,
};
use svreader::sixel_write::{blank_rect, check_input, emit_dcs, ColorMode, SixelError};
use svreader::terminal::{area_query, needs_query, parse_csi_14t, parse_wxh, query, TermGeom};
use svreader::timings::FrameTiming;
use svreader::tmux::wrap_for_tmux;
use svreader::window::CellRect;

fn geom(cols: u16, rows: u16) -> TermGeom {
    TermGeom { cols, rows, px_w: cols * 10, px_h: rows * 20, cell_px_w: 10, cell_px_h: 20 }
}

fn rect(col: u16, row: u16, cols: u16, rows: u16) -> CellRect {
    CellRect { col, row, cols, rows }
}

#[test]
fn sequences_are_wrapped_for_tmux() {
    assert_eq!(wrap_for_tmux("\x1b[c", false), "\x1b[c");
    assert_eq!(wrap_for_tmux("\x1b[c", true), "\x1bPtmux;\x1b\x1b[c\x1b\\");
    assert_eq!(wrap_for_tmux("", true), "\x1bPtmux;\x1b\\");
}

#[test]
fn a_frame_is_written_at_its_cell() {
    assert_eq!(emit_dcs("DCS", 0, 4, false), "\x1b[5;1HDCS");
    assert_eq!(emit_dcs("\x1bP", 2, 0, true), "\x1b[1;3H\x1bPtmux;\x1b\x1bP\x1b\\");
}

#[test]
fn a_rectangle_is_blanked_row_by_row() {
    assert_eq!(blank_rect(1, 2, 3, 2), "\x1b[3;2H   \x1b[4;2H   ");
    assert_eq!(blank_rect(1, 2, 3, 0), "");
    assert_eq!(blank_rect(1, u16::MAX, 0, u16::MAX), "");
}

#[test]
fn pictures_are_checked_before_they_are_encoded() {
    assert_eq!(check_input(4, 1, 1), Ok(()));
    assert_eq!(check_input(4, 0, 1), Err(SixelError::BadExtent { width: 0, height: 1 }));
    let (w, h) = (-50_000, -50_000);
    assert_eq!(check_input(4, w, h), Err(SixelError::BadExtent { width: w, height: h }));
    assert_eq!(check_input(5, 1, 1), Err(SixelError::WrongSize { got: 5, expected: 4 }));
    assert_ne!(ColorMode::XTerm256.tag(), ColorMode::Grayscale.tag());
}

#[test]
fn sixel_terminals_say_so() {
    assert!(probe_sixel("\x1b[?62;4;22c"));
    assert!(probe_sixel("\x1b[?4c"));
    assert!(!probe_sixel("\x1b[?62;22c"));
    assert!(!probe_sixel("\x1b[?62;14;24c"));
    assert!(!probe_sixel(""));
    assert_eq!(attributes_query(false), "\x1b[c");
}

#[test]
fn extents_are_read() {
    assert_eq!(parse_wxh(" 640x480 "), Some((640, 480)));
    assert_eq!(parse_wxh("640"), None);
    assert_eq!(parse_wxh("ax480"), None);
    assert_eq!(parse_csi_14t("\x1b[4;480;640t"), Some((640, 480)));
    assert_eq!(parse_csi_14t("\x1b[8;24;80t"), None);
    assert_eq!(area_query(false), "\x1b[14t");
}

#[test]
fn the_geometry_comes_from_the_first_that_knows_it() {
    let size = Some((80, 24, 0, 0));
    assert!(needs_query(None, size));
    assert!(!needs_query(Some("800x480"), size));
    assert!(!needs_query(None, Some((80, 24, 800, 480))));
    let g = query(Some("1600x960"), Some((80, 24, 800, 480)), None);
    assert_eq!((g.cell_px_w, g.cell_px_h), (20, 40));
    let g = query(None, size, Some("\x1b[4;480;800t"));
    assert_eq!((g.px_w, g.px_h, g.cell_px_w, g.cell_px_h), (800, 480, 10, 20));
    let g = query(None, None, None);
    assert_eq!((g.cols, g.rows, g.cell_px_w, g.cell_px_h), (80, 24, 8, 17));
}

#[test]
fn bars_leave_the_rest_to_the_windows() {
    assert_eq!(body_rect(geom(80, 24), 0), rect(0, 0, 80, 23));
    assert_eq!(body_rect(geom(80, 24), 1), rect(0, 1, 80, 22));
    assert_eq!(body_rect(geom(80, 1), 1).rows, 1);
    assert_eq!(pixel_size(rect(0, 0, 80, 22), geom(80, 24)), (800, 440));
    assert_eq!(pixel_size(rect(0, 0, 0, 0), geom(80, 24)), (1, 1));
    assert_eq!(rows_covered(41, 20), 3);
    assert_eq!(rows_covered(40, 20), 2);
}

#[test]
fn texts_are_cut_to_columns() {
    assert_eq!(truncate_cols("äbc", 2), "äb");
    assert_eq!(truncate_cols("abc", 9), "abc");
}

#[test]
fn a_directory_is_drawn_with_its_selection() {
    let items = vec![
        DirItem { name: "a.pdf".to_string(), is_dir: false },
        DirItem { name: "sub".to_string(), is_dir: true },
    ];
    let mut ex = ExplorerBuffer::open(BufferId(1), "/home".to_string(), &items);
    let s = draw_explorer(&ex, rect(0, 1, 20, 4));
    assert_eq!(
        s,
        "\x1b[2;1H\x1b[38;5;244m/home\x1b[0m\
         \x1b[3;1H\x1b[7m\x1b[1;38;5;110m../\x1b[0m\x1b[0m\
         \x1b[4;1H\x1b[1;38;5;110msub/\x1b[0m\
         \x1b[5;1H\x1b[38;5;252ma.pdf\x1b[0m"
    );
    // With room for two rows the last entry is scrolled to.
    ex.selected = 2;
    let s = draw_explorer(&ex, rect(0, 0, 20, 2));
    assert_eq!(
        s,
        "\x1b[1;1H\x1b[38;5;244m/home\x1b[0m\x1b[2;1H\x1b[7m\x1b[38;5;252ma.pdf\x1b[0m\x1b[0m"
    );
    assert_eq!(draw_explorer(&ex, rect(0, 0, 0, 2)), "");
}

#[test]
fn the_prompt_of_a_search_fills_its_row() {
    assert_eq!(draw_search_prompt(22, 6, "abc", true), "\x1b[23;1H\x1b[2K/abc  ");
    assert_eq!(draw_search_prompt(0, 3, "abc", false), "\x1b[1;1H\x1b[2K?ab");
    assert_eq!(prompt_cursor(22, "abc"), "\x1b[23;5H");
    let row = draw_search_prompt(0, 30, "longer than the row by far, truly", true);
    assert_eq!(row.chars().count(), "\x1b[1;1H\x1b[2K".chars().count() + 30);
}

#[test]
fn the_palette_shows_what_is_chosen() {
    let rows: Vec<String> = ["x", "y", "z"].iter().map(|s| s.to_string()).collect();
    let s = draw_palette(1, 4, 3, "q", &rows, Some(2));
    assert_eq!(
        s,
        "\x1b[2;1H\x1b[2K\x1b[3;1H\x1b[2K\x1b[4;1H\x1b[2K\
         \x1b[2;1Hy  \x1b[3;1H\x1b[7mz  \x1b[0m\x1b[4;1H:q "
    );
}

#[test]
fn help_fills_its_rows() {
    let s = draw_help(0, 2, 10);
    assert_eq!(s, "\x1b[1;1H\x1b[2K svreader \x1b[2;1H\x1b[2K");
    assert!(draw_help(0, 40, 80).contains("Press q or Esc to close."));
}

#[test]
fn the_start_is_announced() {
    assert_eq!(startup_message(Some("a.pdf"), false), "svreader — loading a.pdf...\r\n");
    assert_eq!(startup_message(Some("/x"), true), "svreader — opening explorer at /x...\r\n");
    assert_eq!(startup_message(None, false), "svreader — opening explorer...\r\n");
}

fn outline(title: &str, page: Option<usize>, children: Vec<Outline>) -> Outline {
    Outline { title: title.to_string(), page, children }
}

#[test]
fn an_outline_becomes_lines() {
    let tree = vec![
        outline("One", Some(0), vec![outline("Part", Some(4), vec![])]),
        outline("Two", None, vec![]),
        outline("Three", Some(9), vec![]),
    ];
    let mut lines = Vec::new();
    flatten_outline(&tree, 0, &mut lines);
    let got: Vec<(usize, &str, usize)> =
        lines.iter().map(|e| (e.depth, e.title.as_str(), e.page)).collect();
    assert_eq!(got, [(0, "One", 0), (1, "Part", 4), (0, "Two", 0), (0, "Three", 9)]);
    assert_eq!(initial_line(&lines, 5), 2);
    assert_eq!(initial_line(&lines, 9), 3);
    let s = draw_toc_overlay(rect(0, 0, 12, 2), &lines, 1);
    assert_eq!(
        s,
        "\x1b[1;1H\x1b[2K\x1b[2;1H\x1b[2K\
         \x1b[1;1H\x1b[48;5;236m\x1b[38;5;252m TOC — 4 ent\x1b[0m\
         \x1b[2;1H\x1b[7m  Part  · p5\x1b[0m"
    );
}

#[test]
fn marks_are_listed_by_letter() {
    let mark = |mark: char, page: usize| Bookmark { mark, page, x_off: -3, y_off: 40 };
    let sorted = mark_entries(&vec![mark('c', 1), mark('a', 2), mark('b', 3)]);
    let letters: String = sorted.iter().map(|m| m.mark).collect();
    assert_eq!(letters, "abc");
    let s = draw_marks_overlay(rect(0, 0, 40, 2), &sorted, 0);
    assert!(s.contains("\x1b[7m  'a    page 3    (-3,40)"));
    assert!(s.contains(" marks (3) — Enter jump · d delete"));
}

#[test]
fn a_selection_stays_in_its_list() {
    assert_eq!(list_move(1, 5, 2, false), 3);
    assert_eq!(list_move(1, 5, 9, false), 4);
    assert_eq!(list_move(1, 5, 9, true), 0);
    assert_eq!(list_move(0, 0, 1, false), 0);
}

#[test]
fn frame_times_are_shown_in_milliseconds() {
    let t = FrameTiming {
        render: 1_500_000,
        compose: 499_999,
        encode: 2_000_000,
        write: 0,
        other: 1,
    };
    assert_eq!(t.total(), 4_000_000);
    assert_eq!(t.short_label(), "load:4ms r:2 cm:0 en:2 tx:0 ot:0");
}
