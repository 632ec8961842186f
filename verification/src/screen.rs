//! What is written to the terminal: bars, lists, prompts and overlays.
//!
//! Row 0 is the tab bar where there are several tabs, the last row is the
//! status bar, and the windows of the current tab lie between.
use vstd::prelude::*;

use crate::explorer::{ExplorerBuffer, ExplorerEntry, ExplorerKind};
use crate::sixel_write::{self, push_cursor, push_spaces};
use crate::terminal::TermGeom;
use crate::text::{self, push_decimal, push_str, to_chars};
use crate::window::CellRect;

verus! {

/// Rows of the status bar.
pub const STATUS_ROWS: u16 = 1;

/// Most rows of the command palette.
pub const PALETTE_MAX_ROWS: u16 = 6;

/// Most rows of the help overlay.
pub const HELP_ROWS: u16 = 26;

/// `a` less `b`, and at least 0.
pub open spec fn less(a: int, b: int) -> int {
    if a < b {
        0
    } else {
        a - b
    }
}

/// The larger of two numbers.
pub open spec fn larger(a: int, b: int) -> int {
    if a < b {
        b
    } else {
        a
    }
}

/// The smaller of two numbers.
pub open spec fn smaller(a: int, b: int) -> int {
    if a < b {
        a
    } else {
        b
    }
}

/// The rectangle of the windows: all but the tab bar and the status bar.
pub fn body_rect(geom: TermGeom, tab_bar_rows: u16) -> (r: CellRect)
    ensures
        r.col == 0,
        r.row == tab_bar_rows,
        r.cols == larger(geom.cols as int, 1),
        r.rows == larger(less(less(geom.rows as int, tab_bar_rows as int), STATUS_ROWS as int), 1),
{
    let rows: u16 = geom.rows.saturating_sub(tab_bar_rows).saturating_sub(STATUS_ROWS);
    CellRect {
        col: 0,
        row: tab_bar_rows,
        cols: if geom.cols < 1 {
            1
        } else {
            geom.cols
        },
        rows: if rows < 1 {
            1
        } else {
            rows
        },
    }
}

/// The extent of a rectangle in pixels.
pub fn pixel_size(rect: CellRect, geom: TermGeom) -> (r: (u32, u32))
    ensures
        r.0 == larger(rect.cols * geom.cell_px_w, 1),
        r.1 == larger(rect.rows * geom.cell_px_h, 1),
{
    proof {
        assert(0 <= rect.cols * geom.cell_px_w <= 0xFFFF * 0xFFFF) by (nonlinear_arith)
            requires
                0 <= rect.cols <= 0xFFFF,
                0 <= geom.cell_px_w <= 0xFFFF,
        ;
        assert(0 <= rect.rows * geom.cell_px_h <= 0xFFFF * 0xFFFF) by (nonlinear_arith)
            requires
                0 <= rect.rows <= 0xFFFF,
                0 <= geom.cell_px_h <= 0xFFFF,
        ;
    }
    let w: u32 = rect.cols as u32 * geom.cell_px_w as u32;
    let h: u32 = rect.rows as u32 * geom.cell_px_h as u32;
    (
        if w < 1 {
            1
        } else {
            w
        },
        if h < 1 {
            1
        } else {
            h
        },
    )
}

/// Number of terminal rows that a picture covers.
pub fn rows_covered(pixel_height: u32, cell_px_h: u16) -> (rows: u16)
    requires
        cell_px_h > 0,
    ensures
        rows == ((pixel_height + cell_px_h - 1) / cell_px_h as int) % 0x1_0000,
{
    let n: u64 = (pixel_height as u64 + cell_px_h as u64 - 1) / cell_px_h as u64;
    (n % 0x1_0000) as u16
}

// ------------------------------ Lines ------------------------------

/// As much of a text as fits in that many columns.
pub open spec fn clipped(s: Seq<char>, cols: nat) -> Seq<char> {
    if s.len() <= cols {
        s
    } else {
        s.take(cols as int)
    }
}

/// A text cut or padded to exactly that many columns.
pub open spec fn filled(s: Seq<char>, cols: nat) -> Seq<char> {
    clipped(s, cols) + sixel_write::spaces((cols - clipped(s, cols).len()) as nat)
}

/// A row that was filled takes exactly its columns.
pub proof fn lemma_filled(s: Seq<char>, cols: nat)
    ensures
        filled(s, cols).len() == cols,
        clipped(s, cols).is_prefix_of(filled(s, cols)),
{
}

/// Cut a text to a number of columns.
pub fn truncate_cols(s: &str, cols: usize) -> (r: String)
    ensures
        r@ == clipped(s@, cols as nat),
{
    let cs: Vec<char> = to_chars(s);
    let n: usize = if cs.len() <= cols {
        cs.len()
    } else {
        cols
    };
    let r: String = text::from_chars(&cs, 0, n);
    assert(r@ =~= clipped(s@, cols as nat));
    r
}

pub(crate) fn push_clipped(out: &mut String, s: &str, cols: usize)
    ensures
        final(out)@ == old(out)@ + clipped(s@, cols as nat),
{
    let t: String = truncate_cols(s, cols);
    push_str(out, t.as_str());
}

pub(crate) fn push_filled(out: &mut String, s: &str, cols: usize)
    ensures
        final(out)@ == old(out)@ + filled(s@, cols as nat),
{
    let ghost before = out@;
    let t: String = truncate_cols(s, cols);
    let n: usize = to_chars(t.as_str()).len();
    push_str(out, t.as_str());
    push_spaces(out, cols - n);
    assert(out@ =~= before + filled(s@, cols as nat));
}

/// The sequence that moves to the beginning of a row and clears it.
pub open spec fn cleared_row(row: int) -> Seq<char> {
    "\x1b["@ + text::decimal((row + 1) as nat) + ";1H\x1b[2K"@
}

pub(crate) fn push_cleared_row(out: &mut String, row: u16)
    ensures
        final(out)@ == old(out)@ + cleared_row(row as int),
{
    let ghost before = out@;
    push_str(out, "\x1b[");
    push_decimal(out, row as u64 + 1);
    push_str(out, ";1H\x1b[2K");
    assert(out@ =~= before + cleared_row(row as int));
}

/// What clears the rows from `top` up to `bottom`.
pub open spec fn cleared_rows(top: int, bottom: int) -> Seq<char>
    decreases bottom - top,
{
    if top >= bottom {
        Seq::empty()
    } else {
        cleared_rows(top, bottom - 1) + cleared_row(bottom - 1)
    }
}

fn push_cleared_rows(out: &mut String, top: u16, bottom: u16)
    ensures
        final(out)@ == old(out)@ + cleared_rows(top as int, bottom as int),
{
    let ghost before = out@;
    let mut r: u16 = top;
    assert(out@ =~= before + cleared_rows(top as int, top as int));
    while r < bottom
        invariant
            top <= r,
            r <= bottom || r == top,
            out@ == before + cleared_rows(top as int, r as int),
        decreases bottom - r,
    {
        let ghost sofar = cleared_rows(top as int, r as int);
        push_cleared_row(out, r);
        r += 1;
        assert(out@ =~= before + (sofar + cleared_row(r - 1)));
    }
    proof {
        if top >= bottom {
            assert(cleared_rows(top as int, bottom as int) =~= Seq::empty());
            assert(cleared_rows(top as int, r as int) =~= Seq::empty());
        }
    }
}

/// The text of a text that may be missing.
pub open spec fn text_of(s: Option<String>) -> Option<Seq<char>> {
    match s {
        Some(t) => Some(t@),
        None => None,
    }
}

// ------------------------------ Lists ------------------------------

/// The first entry of a list that is shown, so that the selected one is.
pub open spec fn first_shown(selected: int, rows: int) -> int {
    if selected >= rows {
        selected + 1 - rows
    } else {
        0
    }
}

/// How many entries of a list are shown.
pub open spec fn count_shown(selected: int, rows: int, total: int) -> int {
    smaller(rows, less(total, first_shown(selected, rows)))
}

/// The selected entry is among those that are shown.
pub proof fn lemma_selected_is_shown(selected: int, rows: int, total: int)
    requires
        0 <= selected < total,
        0 < rows,
    ensures
        first_shown(selected, rows) <= selected < first_shown(selected, rows) + count_shown(
            selected,
            rows,
            total,
        ),
{
}

fn scroll_for(selected: usize, rows: usize) -> (s: usize)
    requires
        0 < rows,
    ensures
        s == first_shown(selected as int, rows as int),
{
    if selected >= rows {
        selected - rows + 1
    } else {
        0
    }
}

/// How an entry of a directory is written.
pub open spec fn entry_label(e: ExplorerEntry) -> Seq<char> {
    match e.kind {
        ExplorerKind::Pdf => e.name@,
        _ => e.name@ + "/"@,
    }
}

/// The colour of an entry of a directory.
pub open spec fn entry_style(e: ExplorerEntry) -> Seq<char> {
    match e.kind {
        ExplorerKind::Pdf => "\x1b[38;5;252m"@,
        _ => "\x1b[1;38;5;110m"@,
    }
}

/// The line of an entry of a directory.
pub open spec fn entry_line(ex: ExplorerBuffer, rect: CellRect, i: int, row: int) -> Seq<char> {
    let e = ex.entries@[i];
    let selected = i == ex.selected;
    sixel_write::cursor_to(rect.col as int, rect.row + 1 + row) + (if selected {
        "\x1b[7m"@
    } else {
        Seq::empty()
    }) + entry_style(e) + clipped(entry_label(e), rect.cols as nat) + "\x1b[0m"@ + (if selected {
        "\x1b[0m"@
    } else {
        Seq::empty()
    })
}

/// The first `n` lines of a directory.
pub open spec fn entry_lines(ex: ExplorerBuffer, rect: CellRect, first: int, n: nat) -> Seq<char>
    decreases n,
{
    if n == 0 {
        Seq::empty()
    } else {
        entry_lines(ex, rect, first, (n - 1) as nat) + entry_line(ex, rect, first + n - 1, n - 1)
    }
}

/// A directory in a rectangle: the path on its first row, entries below.
pub open spec fn explorer_text(ex: ExplorerBuffer, rect: CellRect) -> Seq<char> {
    if rect.cols == 0 || rect.rows == 0 {
        Seq::empty()
    } else {
        let header = sixel_write::cursor_to(rect.col as int, rect.row as int)
            + "\x1b[38;5;244m"@ + clipped(ex.cwd@, rect.cols as nat) + "\x1b[0m"@;
        let rows = rect.rows - 1;
        let selected = ex.selected as int;
        if rows == 0 {
            header
        } else {
            header + entry_lines(
                ex,
                rect,
                first_shown(selected, rows),
                count_shown(selected, rows, ex.entries@.len() as int) as nat,
            )
        }
    }
}

fn entry_string(ex: &ExplorerBuffer, rect: CellRect, at: usize, row: u16) -> (s: String)
    requires
        rect.on_grid(),
        row + 1 < rect.rows,
        at < ex.entries@.len(),
    ensures
        s@ == entry_line(*ex, rect, at as int, row as int),
{
    let mut out: String = String::new();
    let e: &ExplorerEntry = &ex.entries[at];
    let selected: bool = at == ex.selected;
    push_cursor(&mut out, rect.col, rect.row + 1 + row);
    assert(out@ =~= sixel_write::cursor_to(rect.col as int, rect.row + 1 + row));
    if selected {
        push_str(&mut out, "\x1b[7m");
    } else {
        assert(out@ =~= out@ + Seq::empty());
    }
    let mut label: String = String::new();
    push_str(&mut label, e.name.as_str());
    match e.kind {
        ExplorerKind::Pdf => {
            push_str(&mut out, "\x1b[38;5;252m");
        },
        _ => {
            push_str(&mut out, "\x1b[1;38;5;110m");
            push_str(&mut label, "/");
        },
    }
    assert(label@ =~= entry_label(*e));
    push_clipped(&mut out, label.as_str(), rect.cols as usize);
    push_str(&mut out, "\x1b[0m");
    if selected {
        push_str(&mut out, "\x1b[0m");
    } else {
        assert(out@ =~= out@ + Seq::empty());
    }
    out
}

/// What draws a directory in a rectangle.
pub fn draw_explorer(ex: &ExplorerBuffer, rect: CellRect) -> (s: String)
    requires
        rect.on_grid(),
    ensures
        s@ == explorer_text(*ex, rect),
{
    let mut out: String = String::new();
    assert(out@ =~= Seq::empty());
    if rect.cols == 0 || rect.rows == 0 {
        return out;
    }
    let cols: usize = rect.cols as usize;
    push_cursor(&mut out, rect.col, rect.row);
    push_str(&mut out, "\x1b[38;5;244m");
    push_clipped(&mut out, ex.cwd.as_str(), cols);
    push_str(&mut out, "\x1b[0m");
    let ghost header = sixel_write::cursor_to(rect.col as int, rect.row as int)
        + "\x1b[38;5;244m"@ + clipped(ex.cwd@, rect.cols as nat) + "\x1b[0m"@;
    assert(out@ =~= header);
    let list_rows: usize = rect.rows as usize - 1;
    if list_rows == 0 {
        return out;
    }
    let total: usize = ex.entries.len();
    let scroll: usize = scroll_for(ex.selected, list_rows);
    let left: usize = if total < scroll {
        0
    } else {
        total - scroll
    };
    let visible: usize = if list_rows < left {
        list_rows
    } else {
        left
    };
    let mut i: usize = 0;
    assert(out@ =~= header + entry_lines(*ex, rect, scroll as int, 0));
    while i < visible
        invariant
            i <= visible,
            visible <= list_rows == rect.rows - 1,
            rect.on_grid(),
            cols == rect.cols,
            visible == 0 || scroll + visible <= ex.entries@.len() == total,
            out@ == header + entry_lines(*ex, rect, scroll as int, i as nat),
        decreases visible - i,
    {
        let ghost sofar = entry_lines(*ex, rect, scroll as int, i as nat);
        let line: String = entry_string(ex, rect, scroll + i, i as u16);
        push_str(&mut out, line.as_str());
        i += 1;
        assert(out@ =~= header + (sofar + entry_line(*ex, rect, scroll + i - 1, i - 1)));
    }
    out
}

/// What a line of a list in an overlay looks like.
pub open spec fn overlay_line(line: Seq<char>, body: CellRect, selected: bool, row: int) -> Seq<
    char,
> {
    sixel_write::cursor_to(body.col as int, body.row + 1 + row) + (if selected {
        "\x1b[7m"@
    } else {
        Seq::empty()
    }) + filled(line, body.cols as nat) + (if selected {
        "\x1b[0m"@
    } else {
        Seq::empty()
    })
}

/// The first `n` lines that are shown of a list.
pub open spec fn overlay_lines(
    lines: Seq<Seq<char>>,
    body: CellRect,
    selected: int,
    first: int,
    n: nat,
) -> Seq<char>
    decreases n,
{
    if n == 0 {
        Seq::empty()
    } else {
        overlay_lines(lines, body, selected, first, (n - 1) as nat) + overlay_line(
            lines[first + n - 1],
            body,
            first + n - 1 == selected,
            n - 1,
        )
    }
}

/// What clears the rows of a rectangle, from its column on.
pub open spec fn wiped(body: CellRect, rows: nat) -> Seq<char>
    decreases rows,
{
    if rows == 0 {
        Seq::empty()
    } else {
        wiped(body, (rows - 1) as nat) + sixel_write::cursor_to(
            body.col as int,
            body.row + rows - 1,
        ) + "\x1b[2K"@
    }
}

/// An overlay with a list: a header on the first row, the lines below.
pub open spec fn overlay_text(
    header: Seq<char>,
    lines: Seq<Seq<char>>,
    body: CellRect,
    selected: int,
) -> Seq<char> {
    if body.empty() {
        Seq::empty()
    } else {
        let rows = body.rows - 1;
        wiped(body, body.rows as nat) + sixel_write::cursor_to(body.col as int, body.row as int)
            + "\x1b[48;5;236m\x1b[38;5;252m"@ + filled(header, body.cols as nat) + "\x1b[0m"@
            + (if rows == 0 {
            Seq::empty()
        } else {
            overlay_lines(
                lines,
                body,
                selected,
                first_shown(selected, rows),
                count_shown(selected, rows, lines.len() as int) as nat,
            )
        })
    }
}

/// The texts of a list of lines.
pub open spec fn texts(lines: Seq<String>) -> Seq<Seq<char>> {
    lines.map_values(|s: String| s@)
}

/// What draws an overlay with a list.
pub fn draw_overlay(header: &str, lines: &Vec<String>, body: CellRect, selected: usize) -> (s:
    String)
    requires
        body.on_grid(),
    ensures
        s@ == overlay_text(header@, texts(lines@), body, selected as int),
{
    let ghost ls = texts(lines@);
    let mut out: String = String::new();
    assert(out@ =~= Seq::empty());
    if body.is_empty() {
        return out;
    }
    let cols: usize = body.cols as usize;
    let mut r: u16 = 0;
    assert(out@ =~= wiped(body, 0));
    while r < body.rows
        invariant
            r <= body.rows,
            body.on_grid(),
            out@ == wiped(body, r as nat),
        decreases body.rows - r,
    {
        let ghost before = out@;
        push_cursor(&mut out, body.col, body.row + r);
        push_str(&mut out, "\x1b[2K");
        r += 1;
        assert(out@ =~= wiped(body, r as nat));
    }
    push_cursor(&mut out, body.col, body.row);
    push_str(&mut out, "\x1b[48;5;236m\x1b[38;5;252m");
    push_filled(&mut out, header, cols);
    push_str(&mut out, "\x1b[0m");
    let ghost head = wiped(body, body.rows as nat) + sixel_write::cursor_to(
        body.col as int,
        body.row as int,
    ) + "\x1b[48;5;236m\x1b[38;5;252m"@ + filled(header@, body.cols as nat) + "\x1b[0m"@;
    assert(out@ =~= head);
    let list_rows: usize = body.rows as usize - 1;
    if list_rows == 0 {
        assert(out@ =~= head + Seq::empty());
        return out;
    }
    let total: usize = lines.len();
    let scroll: usize = scroll_for(selected, list_rows);
    let left: usize = if total < scroll {
        0
    } else {
        total - scroll
    };
    let visible: usize = if list_rows < left {
        list_rows
    } else {
        left
    };
    let mut i: usize = 0;
    assert(out@ =~= head + overlay_lines(ls, body, selected as int, scroll as int, 0));
    while i < visible
        invariant
            i <= visible,
            visible <= list_rows == body.rows - 1,
            body.on_grid(),
            cols == body.cols,
            ls == texts(lines@),
            visible == 0 || scroll + visible <= lines@.len() == total,
            out@ == head + overlay_lines(ls, body, selected as int, scroll as int, i as nat),
        decreases visible - i,
    {
        let ghost before = out@;
        let ghost sofar = overlay_lines(ls, body, selected as int, scroll as int, i as nat);
        let at: usize = scroll + i;
        let here: bool = at == selected;
        push_cursor(&mut out, body.col, body.row + 1 + i as u16);
        if here {
            push_str(&mut out, "\x1b[7m");
        }
        push_filled(&mut out, lines[at].as_str(), cols);
        if here {
            push_str(&mut out, "\x1b[0m");
        }
        assert(ls[at as int] == lines@[at as int]@);
        assert(out@ =~= before + overlay_line(ls[at as int], body, here, i as int));
        i += 1;
        assert(out@ =~= head + (sofar + overlay_line(
            ls[scroll + i - 1],
            body,
            scroll + i - 1 == selected,
            i - 1,
        )));
    }
    out
}

// ------------------------------ Prompts ------------------------------

/// The prompt of a search, on one row.
pub open spec fn prompt_text(row: int, cols: nat, input: Seq<char>, forward: bool) -> Seq<char> {
    cleared_row(row) + filled(
        seq![
            if forward {
                '/'
            } else {
                '?'
            },
        ] + input,
        cols,
    )
}

/// What draws the prompt of a search.
pub fn draw_search_prompt(row: u16, cols: u16, input: &str, forward: bool) -> (s: String)
    ensures
        s@ == prompt_text(row as int, cols as nat, input@, forward),
{
    let mut line: String = String::new();
    line.push(
        if forward {
            '/'
        } else {
            '?'
        },
    );
    push_str(&mut line, input);
    assert(line@ =~= seq![
        if forward {
            '/'
        } else {
            '?'
        },
    ] + input@);
    let mut out: String = String::new();
    push_cleared_row(&mut out, row);
    push_filled(&mut out, line.as_str(), cols as usize);
    assert(out@ =~= prompt_text(row as int, cols as nat, input@, forward));
    out
}

/// A line of the palette.
pub open spec fn palette_line(line: Seq<char>, row: int, cols: nat, selected: bool) -> Seq<char> {
    sixel_write::cursor_to(0, row) + (if selected {
        "\x1b[7m"@
    } else {
        Seq::empty()
    }) + filled(line, cols) + (if selected {
        "\x1b[0m"@
    } else {
        Seq::empty()
    })
}

/// The first `n` lines of the palette.
pub open spec fn palette_lines(
    lines: Seq<Seq<char>>,
    cursor: Option<usize>,
    first: int,
    row: int,
    cols: nat,
    n: nat,
) -> Seq<char>
    decreases n,
{
    if n == 0 {
        Seq::empty()
    } else {
        let i = first + n - 1;
        palette_lines(lines, cursor, first, row, cols, (n - 1) as nat) + palette_line(
            lines[i],
            row + n - 1,
            cols,
            cursor matches Some(c) && c == i,
        )
    }
}

/// Which completion the palette begins with: the selected one is the last
/// that is shown where it does not fit otherwise.
pub open spec fn palette_first(cursor: Option<usize>, visible: int) -> int {
    match cursor {
        Some(c) => if c >= visible {
            c + 1 - visible
        } else {
            0
        },
        None => 0,
    }
}

/// The palette: the input on the last row, completions above it.
pub open spec fn palette_text(
    top: int,
    bottom: int,
    cols: nat,
    input: Seq<char>,
    lines: Seq<Seq<char>>,
    cursor: Option<usize>,
) -> Seq<char> {
    let visible = smaller(less(bottom - top, 1), lines.len() as int);
    let first = palette_first(cursor, visible);
    let shown = smaller(visible, less(lines.len() as int, first));
    let input_row = less(bottom, 1);
    cleared_rows(top, bottom) + palette_lines(
        lines,
        cursor,
        first,
        less(input_row, visible),
        cols,
        shown as nat,
    ) + sixel_write::cursor_to(0, input_row) + filled(seq![':'] + input, cols)
}

/// What draws the palette.
pub fn draw_palette(
    top: u16,
    bottom: u16,
    cols: u16,
    input: &str,
    lines: &Vec<String>,
    cursor: Option<usize>,
) -> (s: String)
    requires
        top <= bottom,
        cursor matches Some(c) ==> c < usize::MAX,
    ensures
        s@ == palette_text(
            top as int,
            bottom as int,
            cols as nat,
            input@,
            texts(lines@),
            cursor,
        ),
{
    let ghost ls = texts(lines@);
    let mut out: String = String::new();
    assert(out@ =~= Seq::empty());
    push_cleared_rows(&mut out, top, bottom);
    let ghost head = cleared_rows(top as int, bottom as int);
    assert(out@ =~= head);
    let room: usize = if bottom - top < 1 {
        0
    } else {
        (bottom - top) as usize - 1
    };
    let total: usize = lines.len();
    let visible: usize = if room < total {
        room
    } else {
        total
    };
    let first: usize = match cursor {
        Some(c) => if c >= visible {
            c - visible + 1
        } else {
            0
        },
        None => 0,
    };
    let left: usize = if total < first {
        0
    } else {
        total - first
    };
    let shown: usize = if visible < left {
        visible
    } else {
        left
    };
    let input_row: u16 = if bottom < 1 {
        0
    } else {
        bottom - 1
    };
    let start_row: u16 = if (input_row as usize) < visible {
        0
    } else {
        input_row - visible as u16
    };
    let mut i: usize = 0;
    assert(out@ =~= head + palette_lines(ls, cursor, first as int, start_row as int, cols as nat, 0));
    while i < shown
        invariant
            i <= shown <= visible,
            visible <= room,
            room < 0x1_0000,
            start_row + visible <= input_row || visible == 0 || (start_row == 0 && visible
                <= 0xFFFF),
            input_row <= 0xFFFF,
            ls == texts(lines@),
            shown == 0 || first + shown <= lines@.len() == total,
            out@ == head + palette_lines(
                ls,
                cursor,
                first as int,
                start_row as int,
                cols as nat,
                i as nat,
            ),
        decreases shown - i,
    {
        let ghost before = out@;
        let ghost sofar = palette_lines(
            ls,
            cursor,
            first as int,
            start_row as int,
            cols as nat,
            i as nat,
        );
        let at: usize = first + i;
        let here: bool = match cursor {
            Some(c) => c == at,
            None => false,
        };
        push_cursor(&mut out, 0, start_row + i as u16);
        if here {
            push_str(&mut out, "\x1b[7m");
        }
        push_filled(&mut out, lines[at].as_str(), cols as usize);
        if here {
            push_str(&mut out, "\x1b[0m");
        }
        assert(ls[at as int] == lines@[at as int]@);
        assert(out@ =~= before + palette_line(
            ls[at as int],
            start_row + i,
            cols as nat,
            cursor matches Some(c) && c == at,
        ));
        i += 1;
        assert(out@ =~= head + (sofar + palette_line(
            ls[first + i - 1],
            start_row + i - 1,
            cols as nat,
            cursor matches Some(c) && c == first + i - 1,
        )));
    }
    let ghost upto = out@;
    let mut line: String = String::new();
    line.push(':');
    push_str(&mut line, input);
    assert(line@ =~= seq![':'] + input@);
    push_cursor(&mut out, 0, input_row);
    push_filled(&mut out, line.as_str(), cols as usize);
    assert(out@ =~= upto + sixel_write::cursor_to(0, input_row as int) + filled(
        seq![':'] + input@,
        cols as nat,
    ));
    out
}

/// What puts the cursor behind the input of a prompt.
pub open spec fn prompt_cursor_text(row: int, typed: nat) -> Seq<char> {
    "\x1b["@ + text::decimal((row + 1) as nat) + ";"@ + text::decimal(
        smaller((typed as int % 0x1_0000) + 2, u16::MAX as int) as nat,
    ) + "H"@
}

/// What puts the cursor behind the input of a prompt on `row`.
pub fn prompt_cursor(row: u16, input: &str) -> (s: String)
    ensures
        s@ == prompt_cursor_text(row as int, input@.len()),
{
    let typed: usize = to_chars(input).len();
    let col: u16 = ((typed % 0x1_0000) as u16).saturating_add(2);
    let mut out: String = String::new();
    push_str(&mut out, "\x1b[");
    assert(out@ =~= "\x1b["@);
    push_decimal(&mut out, row as u64 + 1);
    push_str(&mut out, ";");
    push_decimal(&mut out, col as u64);
    push_str(&mut out, "H");
    out
}

// ------------------------------ Help ------------------------------

/// The lines of the help overlay.
pub open spec fn help_page() -> Seq<Seq<char>> {
    seq![
        " svreader — keys"@,
        ""@,
        "   j / k         next / prev screen (10% overlap)"@,
        "   ↓ / ↑         fine scroll down/up (10% of viewport)"@,
        "   Ctrl-d/u      half-screen down/up"@,
        "   Ctrl-f/b      next/prev page (no overlap)"@,
        "   gg / G        first / last page"@,
        "   H M L         page top / middle / bottom"@,
        "   h / l         scroll left / right"@,
        "   w / e / f     fit width / height / page"@,
        "   + / -         zoom in / out"@,
        "   r / R         rotate CW / CCW"@,
        "   n             next match (or toggle night when no search)"@,
        "   /  /  ?       search forward / backward"@,
        "   N             previous match"@,
        "   Esc           clear search highlights"@,
        "   t             open table of contents"@,
        "   m{a-z}        set bookmark   '{a-z}   jump to bookmark"@,
        "   Ctrl-o        jump back (jump list)"@,
        "   click link    follow internal PDF link (mouse)"@,
        "   Ctrl-w h/j/k/l   move focus"@,
        "   Ctrl-w s / v     split horizontal / vertical"@,
        "   Ctrl-w c / o     close / only"@,
        "   gt / gT       next / previous tab"@,
        "   Ctrl-^        alternate buffer"@,
        "   (in :Ex)      j/k select, Enter/l open, -/u/h/Backspace parent"@,
        "   :             command palette  (:toc, :text, :marks, :mouse, ...)"@,
        "   :help         show this help   q   quit"@,
        ""@,
        " Press q or Esc to close."@,
    ]
}

fn help_lines() -> (lines: Vec<&'static str>)
    ensures
        lines@.len() == help_page().len(),
        forall|i: int| 0 <= i < lines@.len() ==> (#[trigger] lines@[i])@ == help_page()[i],
{
    vec![
        " svreader — keys",
        "",
        "   j / k         next / prev screen (10% overlap)",
        "   ↓ / ↑         fine scroll down/up (10% of viewport)",
        "   Ctrl-d/u      half-screen down/up",
        "   Ctrl-f/b      next/prev page (no overlap)",
        "   gg / G        first / last page",
        "   H M L         page top / middle / bottom",
        "   h / l         scroll left / right",
        "   w / e / f     fit width / height / page",
        "   + / -         zoom in / out",
        "   r / R         rotate CW / CCW",
        "   n             next match (or toggle night when no search)",
        "   /  /  ?       search forward / backward",
        "   N             previous match",
        "   Esc           clear search highlights",
        "   t             open table of contents",
        "   m{a-z}        set bookmark   '{a-z}   jump to bookmark",
        "   Ctrl-o        jump back (jump list)",
        "   click link    follow internal PDF link (mouse)",
        "   Ctrl-w h/j/k/l   move focus",
        "   Ctrl-w s / v     split horizontal / vertical",
        "   Ctrl-w c / o     close / only",
        "   gt / gT       next / previous tab",
        "   Ctrl-^        alternate buffer",
        "   (in :Ex)      j/k select, Enter/l open, -/u/h/Backspace parent",
        "   :             command palette  (:toc, :text, :marks, :mouse, ...)",
        "   :help         show this help   q   quit",
        "",
        " Press q or Esc to close.",
    ]
}

/// The first `n` rows of the help overlay.
pub open spec fn help_rows(top: int, cols: nat, n: nat) -> Seq<char>
    decreases n,
{
    if n == 0 {
        Seq::empty()
    } else {
        help_rows(top, cols, (n - 1) as nat) + cleared_row(top + n - 1) + (if n
            <= help_page().len() {
            clipped(help_page()[n - 1], cols)
        } else {
            Seq::empty()
        })
    }
}

/// What draws the help overlay on the rows from `top` up to `bottom`.
pub fn draw_help(top: u16, bottom: u16, cols: u16) -> (s: String)
    ensures
        s@ == help_rows(top as int, cols as nat, less(bottom as int, top as int) as nat),
{
    let lines: Vec<&'static str> = help_lines();
    let n: u16 = bottom.saturating_sub(top);
    let mut out: String = String::new();
    let mut i: u16 = 0;
    assert(out@ =~= help_rows(top as int, cols as nat, 0));
    while i < n
        invariant
            i <= n,
            top + n <= u16::MAX,
            lines@.len() == help_page().len(),
            forall|k: int| 0 <= k < lines@.len() ==> (#[trigger] lines@[k])@ == help_page()[k],
            out@ == help_rows(top as int, cols as nat, i as nat),
        decreases n - i,
    {
        push_cleared_row(&mut out, top + i);
        if (i as usize) < lines.len() {
            push_clipped(&mut out, lines[i as usize], cols as usize);
        } else {
            assert(out@ =~= out@ + Seq::empty());
        }
        i += 1;
    }
    out
}

/// What is written while the reader starts. `dir` tells a directory.
pub open spec fn startup_text(path: Option<Seq<char>>, dir: bool) -> Seq<char> {
    match path {
        Some(p) => if dir {
            "svreader — opening explorer at "@ + p + "...\r\n"@
        } else {
            "svreader — loading "@ + p + "...\r\n"@
        },
        None => "svreader — opening explorer...\r\n"@,
    }
}

/// What is written while the reader starts.
pub fn startup_message(path: Option<&str>, is_dir: bool) -> (s: String)
    ensures
        s@ == startup_text(
            match path {
                Some(p) => Some(p@),
                None => None,
            },
            is_dir,
        ),
{
    let mut s: String = String::new();
    match path {
        Some(p) => {
            if is_dir {
                push_str(&mut s, "svreader — opening explorer at ");
                assert(s@ =~= "svreader — opening explorer at "@);
            } else {
                push_str(&mut s, "svreader — loading ");
                assert(s@ =~= "svreader — loading "@);
            }
            push_str(&mut s, p);
            push_str(&mut s, "...\r\n");
        },
        None => {
            push_str(&mut s, "svreader — opening explorer...\r\n");
            assert(s@ =~= "svreader — opening explorer...\r\n"@);
        },
    }
    s
}

} // verus!
