//! Where things are on the screen, and what the terminal tells of it.
use vstd::prelude::*;

use crate::painting::{self, Click, Painted};
use crate::screen;
use crate::sixel_write;
use crate::terminal::{self, TermGeom};
use crate::text;
use crate::timings;
use crate::viewport::Viewport;
use crate::window::{CellRect, Window, WindowId};

verus! {

/// The sequence for the cursor names the row first and then the column, both
/// counted from 1.
pub proof fn lemma_cursor_goes_to(col: nat, row: nat)
    ensures
        sixel_write::cursor_to(col as int, row as int) == seq!['\u{1b}', '['] + text::decimal(
            row + 1,
        ) + seq![';'] + text::decimal(col + 1) + seq!['H'],
{
    reveal_strlit("\x1b[");
    reveal_strlit(";");
    reveal_strlit("H");
    assert("\x1b["@ =~= seq!['\u{1b}', '[']);
    assert(";"@ =~= seq![';']);
    assert("H"@ =~= seq!['H']);
}

/// A click on a cell of another window asks for that window; in the focused
/// one it asks for a pixel of that very cell, counted from the window's first
/// cell. A click outside of all windows asks for nothing.
pub proof fn lemma_click(
    layout: Seq<(WindowId, CellRect)>,
    focused: WindowId,
    col: u16,
    row: u16,
    geom: TermGeom,
    i: int,
)
    requires
        0 <= i < layout.len(),
        layout[i].1.on_grid(),
        layout[i].1.covers(col as int, row as int),
        forall|j: int| 0 <= j < i ==> !painting::cell_in((#[trigger] layout[j]).1, col, row),
        1 <= geom.cell_px_w <= 1000,
        1 <= geom.cell_px_h <= 1000,
    ensures
        match painting::click_for(layout, focused, col, row, geom) {
            Click::Focus(id) => id == layout[i].0 && id != focused,
            Click::Follow { window, x, y } => {
                &&& window == focused && layout[i].0 == focused
                &&& (col - layout[i].1.col) * geom.cell_px_w <= x < (col - layout[i].1.col + 1)
                    * geom.cell_px_w
                &&& (row - layout[i].1.row) * geom.cell_px_h <= y < (row - layout[i].1.row + 1)
                    * geom.cell_px_h
            },
            Click::Nothing => false,
        },
{
    painting::lemma_place_at(layout, col, row);
    let rect = layout[i].1;
    assert(painting::cell_in(rect, col, row));
    lemma_mid_pixel(col as int, rect.col as int, geom.cell_px_w);
    lemma_mid_pixel(row as int, rect.row as int, geom.cell_px_h);
}

proof fn lemma_mid_pixel(cell: int, first: int, extent: u16)
    requires
        0 <= first <= cell <= u16::MAX,
        1 <= extent <= 1000,
    ensures
        (cell - first) * extent <= painting::mid_pixel(cell, first, extent) < (cell - first + 1)
            * extent,
        painting::mid_pixel(cell, first, extent) <= i32::MAX,
{
    let n = cell - first;
    assert(0 <= n * extent <= 65535 * 1000) by (nonlinear_arith)
        requires
            0 <= n <= 65535,
            1 <= extent <= 1000,
    ;
    assert((n + 1) * extent == n * extent + extent) by (nonlinear_arith);
}

/// A cell that no window covers is clicked for nothing.
pub proof fn lemma_click_outside(
    layout: Seq<(WindowId, CellRect)>,
    focused: WindowId,
    col: u16,
    row: u16,
    geom: TermGeom,
)
    requires
        forall|j: int|
            0 <= j < layout.len() ==> (#[trigger] layout[j]).1.on_grid() && !layout[j].1.covers(
                col as int,
                row as int,
            ),
    ensures
        painting::click_for(layout, focused, col, row, geom) == Click::Nothing,
{
    painting::lemma_place_at(layout, col, row);
}

/// The pages that are looked at ahead are those at most `reach` away on either
/// side, as far as there are pages.
pub proof fn lemma_ahead_range(page: int, reach: int, count: int, p: int)
    requires
        0 <= page < count,
        0 <= reach,
        0 <= p < count,
    ensures
        painting::first_ahead(page, reach) <= p < painting::end_ahead(page, reach, count) <==> page
            - reach <= p <= page + reach,
{
}

/// A page that is rendered ahead is seen from its first pixel, as the window
/// sees its own.
pub proof fn lemma_ahead_view(v: Viewport, page: usize)
    ensures
        painting::view_of_page(v, page as int) == (Viewport {
            page_idx: page,
            x_off: 0,
            y_off: 0,
            ..v
        }),
{
}

/// A frame covers as many rows as its pixels need: no row is without one, and
/// all of them fit.
pub proof fn lemma_frame_rows(w: Window, rect: CellRect, p: Painted)
    requires
        1 <= p.cell_px_h,
        1 <= p.pixel_height <= 65535,
    ensures
        ({
            let rows = painting::with_frame(w, rect, p).last_sixel_rows as int;
            &&& (rows - 1) * p.cell_px_h < p.pixel_height <= rows * p.cell_px_h
            &&& !painting::with_frame(w, rect, p).dirty
            &&& painting::with_frame(w, rect, p).last_rect == Some(rect)
        }),
{
    let h = p.pixel_height as int;
    let c = p.cell_px_h as int;
    let rows = (h + c - 1) / c;
    assert((rows - 1) * c < h <= rows * c && 0 <= rows <= h) by (nonlinear_arith)
        requires
            rows == (h + c - 1) / c,
            c >= 1,
            h >= 1,
    ;
}

/// The palette shows the chosen row: it begins with the first where that fits,
/// else so that the chosen row is the last that is shown.
pub proof fn lemma_palette_shows_choice(chosen: usize, visible: int)
    requires
        1 <= visible,
    ensures
        ({
            let first = screen::palette_first(Some(chosen), visible);
            &&& first <= chosen < first + visible
            &&& chosen < visible ==> first == 0
            &&& chosen >= visible ==> chosen == first + visible - 1
        }),
        screen::palette_first(None, visible) == 0,
{
}

/// A list begins with its first line where the selected one fits so, else the
/// selected line is the last that is shown.
pub proof fn lemma_list_begins(selected: int, rows: int, total: int)
    requires
        0 <= selected < total,
        0 < rows,
    ensures
        selected < rows ==> screen::first_shown(selected, rows) == 0,
        selected >= rows ==> screen::first_shown(selected, rows) + rows == selected + 1,
        screen::count_shown(selected, rows, total) <= rows,
        screen::first_shown(selected, rows) + screen::count_shown(selected, rows, total) <= total,
        screen::count_shown(selected, rows, total) < rows ==> screen::first_shown(selected, rows)
            + screen::count_shown(selected, rows, total) == total,
{
}

/// A text that is too long loses its end and one that is too short is followed
/// by spaces.
pub proof fn lemma_fitted_text(s: Seq<char>, cols: nat, i: int)
    requires
        0 <= i < cols,
    ensures
        screen::filled(s, cols).len() == cols,
        i < s.len() ==> screen::filled(s, cols)[i] == s[i],
        i >= s.len() ==> screen::filled(s, cols)[i] == ' ',
        screen::clipped(s, cols).len() <= cols,
        i < s.len() ==> screen::clipped(s, cols)[i] == s[i],
        s.len() <= cols ==> screen::clipped(s, cols) == s,
{
}

/// The prompt of a search begins with a slash where it goes forward and with a
/// question mark where it goes backward, followed by what was typed.
pub proof fn lemma_prompt_shows(row: int, cols: nat, input: Seq<char>)
    requires
        input.len() < cols,
    ensures
        ({
            let at = screen::cleared_row(row).len() as int;
            let on = screen::prompt_text(row, cols, input, true);
            let back = screen::prompt_text(row, cols, input, false);
            &&& on[at] == '/' && back[at] == '?'
            &&& on.subrange(at + 1, at + 1 + input.len()) == input
            &&& back.subrange(at + 1, at + 1 + input.len()) == input
        }),
{
    let at = screen::cleared_row(row).len() as int;
    let on = screen::prompt_text(row, cols, input, true);
    let back = screen::prompt_text(row, cols, input, false);
    assert(on.subrange(at + 1, at + 1 + input.len()) =~= input);
    assert(back.subrange(at + 1, at + 1 + input.len()) =~= input);
}

/// The digits of a number hold no letter and no white space.
proof fn lemma_plain_digits(n: nat)
    ensures
        text::decimal(n).len() > 0,
        forall|i: int|
            0 <= i < text::decimal(n).len() ==> '0' <= #[trigger] text::decimal(n)[i] <= '9',
        text::unsigned_of(text::decimal(n), u32::MAX as nat) == (if n <= u32::MAX {
            Some(n)
        } else {
            None
        }),
{
    text::lemma_decimal_reads_back(n);
    assert forall|i: int| 0 <= i < text::decimal(n).len() implies '0'
        <= #[trigger] text::decimal(n)[i] <= '9' by {
        assert(text::is_digit(text::decimal(n)[i]));
    }
    assert(text::is_digit(text::decimal(n)[0]));
}

/// A size that is written as `WxH` is W wide and H high.
pub proof fn lemma_size_read(w: nat, h: nat)
    requires
        w <= u32::MAX,
        h <= u32::MAX,
    ensures
        terminal::extent_of(text::decimal(w) + seq!['x'] + text::decimal(h)) == Some((w, h)),
{
    lemma_plain_digits(w);
    lemma_plain_digits(h);
    let a = text::decimal(w);
    let b = text::decimal(h);
    let s = a + seq!['x'] + b;
    assert(s[0] == a[0] && s.last() == b.last());
    assert('0' <= a[0] <= '9' && '0' <= b[b.len() - 1] <= '9');
    assert(text::trimmed(s) == s);
    text::lemma_find(s, 'x');
    assert(s[a.len() as int] == 'x');
    let i = text::find(s, 'x')->0;
    if i < a.len() {
        assert(s[i] == a[i]);
    } else if i > a.len() {
        assert(s[a.len() as int] != 'x');
    }
    assert(s.take(i) =~= a);
    assert(s.skip(i + 1) =~= b);
}

/// A terminal's reply names the height before the width.
pub proof fn lemma_area_read(w: nat, h: nat)
    requires
        w <= u32::MAX,
        h <= u32::MAX,
    ensures
        terminal::area_of(
            seq!['\u{1b}', '[', '4', ';'] + text::decimal(h) + seq![';'] + text::decimal(w)
                + seq!['t'],
        ) == Some((w, h)),
{
    lemma_plain_digits(w);
    lemma_plain_digits(h);
    let a = text::decimal(h);
    let b = text::decimal(w);
    let s = seq!['\u{1b}', '[', '4', ';'] + a + seq![';'] + b + seq!['t'];
    let rest = seq!['4', ';'] + a + seq![';'] + b + seq!['t'];
    let body = seq!['4', ';'] + a + seq![';'] + b;
    assert(s[0] == '\u{1b}' && s[1] == '[');
    assert(terminal::opening(s) == Some(0int));
    assert(s.skip(2) =~= rest);
    text::lemma_find(rest, 't');
    let n = body.len() as int;
    assert(rest[n] == 't');
    assert forall|j: int| 0 <= j < n implies #[trigger] rest[j] != 't' by {
        assert(rest[j] == body[j]);
        if 2 <= j < 2 + a.len() {
            assert(body[j] == a[j - 2]);
        } else if j > 2 + a.len() {
            assert(body[j] == b[j - 3 - a.len()]);
        }
    }
    assert(text::find(rest, 't') == Some(n));
    assert(rest.take(n) =~= body);
    let one = seq!['4'];
    let tail = a + seq![';'] + b;
    lemma_first_piece(one, tail);
    assert(one + seq![';'] + tail =~= body);
    lemma_first_piece(a, b);
    text::lemma_find(b, ';');
    assert(text::find(b, ';') is None) by {
        if let Some(j) = text::find(b, ';') {
            assert('0' <= b[j] <= '9');
        }
    }
    assert(text::split(b, ';') == seq![b]);
    let parts = text::split(body, ';');
    assert(parts =~= seq![one, a, b]);
}

/// What comes before the first separator is the first piece.
proof fn lemma_first_piece(a: Seq<char>, b: Seq<char>)
    requires
        forall|i: int| 0 <= i < a.len() ==> '0' <= #[trigger] a[i] <= '9',
    ensures
        text::split(a + seq![';'] + b, ';') == seq![a] + text::split(b, ';'),
{
    let s = a + seq![';'] + b;
    text::lemma_find(s, ';');
    assert(s[a.len() as int] == ';');
    let i = text::find(s, ';')->0;
    if i < a.len() {
        assert(s[i] == a[i]);
    } else if i > a.len() {
        assert(s[a.len() as int] != ';');
    }
    assert(s.take(i) =~= a);
    assert(s.skip(i + 1) =~= b);
}

/// A cell is as large as its share of the screen: so many columns of cells fit
/// the width and no more pixels are left than columns, and rows likewise.
pub proof fn lemma_cell_size(g: TermGeom, cols: u16, rows: u16, pw: u32, ph: u32)
    requires
        terminal::is_geometry(g, cols, rows, pw, ph),
        1 <= cols <= pw <= 65535,
        1 <= rows <= ph <= 65535,
    ensures
        g.cols == cols && g.rows == rows,
        g.px_w == pw && g.px_h == ph,
        g.cell_px_w * cols <= pw < (g.cell_px_w + 1) * cols,
        g.cell_px_h * rows <= ph < (g.cell_px_h + 1) * rows,
{
    let w = pw as int / cols as int;
    let h = ph as int / rows as int;
    assert(w * cols <= pw < (w + 1) * cols && 1 <= w <= pw) by (nonlinear_arith)
        requires
            w == pw as int / cols as int,
            1 <= cols <= pw,
    ;
    assert(h * rows <= ph < (h + 1) * rows && 1 <= h <= ph) by (nonlinear_arith)
        requires
            h == ph as int / rows as int,
            1 <= rows <= ph,
    ;
}

/// The size in pixels is what the user says, else what the system tells, else
/// what the terminal replies, else that of cells of 8 by 17.
pub proof fn lemma_pixels(
    said: Option<Seq<char>>,
    told: Option<(u16, u16, u16, u16)>,
    reply: Option<Seq<char>>,
    w: nat,
    h: nat,
)
    requires
        w <= u32::MAX,
        h <= u32::MAX,
    ensures
        terminal::pixels(Some(text::decimal(w) + seq!['x'] + text::decimal(h)), told, reply) == (
            w as int,
            h as int,
        ),
        told matches Some((cols, rows, pw, ph)) ==> (pw > 0 && ph > 0 ==> terminal::pixels(
            None,
            told,
            reply,
        ) == (pw as int, ph as int)),
        w > 0 && h > 0 && (told matches Some((cols, rows, pw, ph)) && (pw == 0 || ph == 0))
            ==> terminal::pixels(
            None,
            told,
            Some(
                seq!['\u{1b}', '[', '4', ';'] + text::decimal(h) + seq![';'] + text::decimal(w)
                    + seq!['t'],
            ),
        ) == (w as int, h as int),
        told matches Some((cols, rows, pw, ph)) ==> (pw == 0 || ph == 0 ==> terminal::pixels(
            None,
            told,
            None,
        ) == (cols * 8, rows * 17)),
        terminal::pixels(None, None, None) == (640int, 408int),
{
    lemma_size_read(w, h);
    lemma_area_read(w, h);
}

/// Milliseconds are the nearest whole number of them.
pub proof fn lemma_millis(nanos: int)
    requires
        0 <= nanos,
    ensures
        -500_000 <= timings::millis(nanos) * 1_000_000 - nanos <= 500_000,
{
}

} // verus!
