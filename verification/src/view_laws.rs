//! What the bars, the lists and the prompts show.
use vstd::prelude::*;

use crate::buffer::{Buffer, PdfBuffer};
use crate::commands::CommandError;
use crate::document::PageMetrics;
use crate::docstate::Bookmark;
use crate::explorer::{self, ExplorerBuffer, ExplorerKind};
use crate::export;
use crate::lists;
use crate::messages;
use crate::paths;
use crate::screen;
use crate::sixel_write;
use crate::status::{self, Figures};
use crate::terminal::TermGeom;
use crate::text;
use crate::timings::FrameTiming;
use crate::viewport::{Rotation, ZoomMode};
use crate::window::{CellRect, Window};
use crate::workspace::Workspace;

verus! {

/// The angle of a rotation in degrees.
pub open spec fn degrees(r: Rotation) -> nat {
    match r {
        Rotation::R0 => 0,
        Rotation::R90 => 90,
        Rotation::R180 => 180,
        Rotation::R270 => 270,
    }
}

/// The name of a zoom; `percent` stands for one that fits nothing.
pub open spec fn zoom_name(z: ZoomMode, percent: Seq<char>) -> Seq<char> {
    match z {
        ZoomMode::FitWidth => "fit-w"@,
        ZoomMode::FitHeight => "fit-h"@,
        ZoomMode::FitPage => "fit-p"@,
        ZoomMode::Custom(_) => percent + "%"@,
    }
}

/// The status bar begins with the name, the page, counted from 1, out of all
/// pages, the zoom and the rotation in degrees.
pub proof fn lemma_place_shown(name: Seq<char>, pages: nat, page: usize, w: Window, fig: Figures)
    requires
        w.viewport.page_idx == page,
        pages > 0,
    ensures
        status::place_text(name, pages, w, fig) == " "@ + name + " | "@ + text::decimal(
            (page + 1) as nat,
        ) + "/"@ + text::decimal(pages) + " | "@ + zoom_name(
            w.viewport.zoom,
            fig.zoom_percent@,
        ) + " | "@ + text::decimal(degrees(w.viewport.rotation)) + "\u{00B0}"@,
{
}

/// At night the bar says so, and by day it does not; a resolution that was set
/// has a star.
pub proof fn lemma_render_shown(w: Window, fig: Figures)
    ensures
        w.viewport.night_mode ==> " [night]"@.is_prefix_of(status::render_text(w, fig)),
        !w.viewport.night_mode ==> " dpi:"@.is_prefix_of(status::render_text(w, fig)),
        w.viewport.render_dpi is Some && !w.viewport.night_mode && fig.quality is None
            ==> status::render_text(w, fig) == " dpi:"@ + text::signed_decimal(fig.dpi as int)
            + "*"@ + " RCache:"@ + text::decimal(fig.pages.0 as nat) + "/"@ + text::decimal(
            fig.pages.1 as nat,
        ) + " ECache:"@ + text::decimal(fig.frames.0 as nat) + "/"@ + text::decimal(
            fig.frames.1 as nat,
        ),
{
    let none = Seq::<char>::empty();
    let t = status::render_text(w, fig);
    let a = " [night]"@;
    let b = " dpi:"@;
    assert(none + b =~= b);
    if w.viewport.night_mode {
        assert(t.subrange(0, a.len() as int) =~= a);
    } else {
        assert(t.subrange(0, b.len() as int) =~= b);
    }
    if w.viewport.render_dpi is Some && !w.viewport.night_mode && fig.quality is None {
        assert(t =~= " dpi:"@ + text::signed_decimal(fig.dpi as int) + "*"@ + " RCache:"@
            + text::decimal(fig.pages.0 as nat) + "/"@ + text::decimal(fig.pages.1 as nat)
            + " ECache:"@ + text::decimal(fig.frames.0 as nat) + "/"@ + text::decimal(
            fig.frames.1 as nat,
        ));
    }
}

/// A search shows what is searched for and which hit has focus, counted from 1,
/// out of how many.
pub proof fn lemma_search_shown<D: PageMetrics>(p: PdfBuffer<D>, w: Window, i: usize)
    requires
        p.search.query@.len() > 0,
        p.search.matches@.len() > 0,
        p.search.current == Some(i),
        w.last_timing is None,
    ensures
        status::search_text(Some(Buffer::Pdf(p)), w) == " /"@ + p.search.query@ + " ["@
            + text::decimal((i + 1) as nat) + "/"@ + text::decimal(p.search.matches@.len()) + "]"@,
{
    let t = status::search_text(Some(Buffer::Pdf(p)), w);
    assert(t =~= " /"@ + p.search.query@ + " ["@ + text::decimal((i + 1) as nat) + "/"@
        + text::decimal(p.search.matches@.len()) + "]"@);
}

/// A directory shows its name, the selected entry, counted from 1, out of how
/// many, and that entry's name.
pub proof fn lemma_directory_shown(ex: ExplorerBuffer)
    requires
        ex.selected < ex.entries@.len(),
    ensures
        status::directory_text(ex) == " "@ + explorer::bracketed_name(ex.cwd@) + " | "@
            + text::decimal((ex.selected + 1) as nat) + "/"@ + text::decimal(ex.entries@.len())
            + " "@ + "| "@ + ex.entries@[ex.selected as int].name@,
{
    let t = status::directory_text(ex);
    assert(t =~= " "@ + explorer::bracketed_name(ex.cwd@) + " | "@ + text::decimal(
        (ex.selected + 1) as nat,
    ) + "/"@ + text::decimal(ex.entries@.len()) + " "@ + "| "@
        + ex.entries@[ex.selected as int].name@);
}

/// With more than one window or tab the bar says how many, and which tab is
/// current, counted from 1; what is pending and a message follow.
pub proof fn lemma_notes_shown<D>(ws: Workspace<D>, hint: Seq<char>, m: Seq<char>)
    requires
        ws.tabs@.len() > 1,
        ws.tab_now().tree.leaves().len() > 1,
        hint.len() > 0,
    ensures
        status::notes_text(ws, hint, Some(m)) == " w:"@ + text::decimal(
            ws.tab_now().tree.leaves().len(),
        ) + " t:"@ + text::decimal((ws.current_tab + 1) as nat) + "/"@ + text::decimal(
            ws.tabs@.len(),
        ) + " ["@ + hint + "]"@ + " -- "@ + m,
        status::notes_text(ws, Seq::empty(), None) == " w:"@ + text::decimal(
            ws.tab_now().tree.leaves().len(),
        ) + " t:"@ + text::decimal((ws.current_tab + 1) as nat) + "/"@ + text::decimal(
            ws.tabs@.len(),
        ),
{
    let none = Seq::<char>::empty();
    assert(status::notes_text(ws, hint, Some(m)) =~= " w:"@ + text::decimal(
        ws.tab_now().tree.leaves().len(),
    ) + " t:"@ + text::decimal((ws.current_tab + 1) as nat) + "/"@ + text::decimal(ws.tabs@.len())
        + " ["@ + hint + "]"@ + " -- "@ + m);
    assert(status::notes_text(ws, none, None) =~= " w:"@ + text::decimal(
        ws.tab_now().tree.leaves().len(),
    ) + " t:"@ + text::decimal((ws.current_tab + 1) as nat) + "/"@ + text::decimal(
        ws.tabs@.len(),
    ));
}

/// The current tab is written brighter than the others; one tab alone has no
/// bar.
pub proof fn lemma_tab_bar<D>(ws: Workspace<D>, i: int, cols: u16)
    ensures
        i == ws.current_tab ==> status::tab_label(ws, i) == "\x1b[48;5;238m\x1b[38;5;252m "@
            + status::title(ws, i) + " "@ + "\x1b[0m"@,
        i != ws.current_tab ==> status::tab_label(ws, i) == "\x1b[48;5;236m\x1b[38;5;244m "@
            + status::title(ws, i) + " "@ + "\x1b[0m"@,
        ws.tabs@.len() <= 1 ==> status::tab_bar_text(ws, cols).len() == 0,
        i >= 0 ==> status::tab_labels(ws, (i + 1) as nat) == status::tab_labels(ws, i as nat)
            + status::tab_label(ws, i),
{
}

/// A tab is called by what its focused window shows.
pub proof fn lemma_tab_title<D>(ws: Workspace<D>, i: int, k: int, j: int)
    requires
        0 <= i < ws.tabs@.len(),
        crate::window::position(ws.tabs@[i].tree.leaves(), ws.tabs@[i].focused) == Some(k),
        crate::pool::slot_at(ws.pool.slots@, ws.tabs@[i].tree.leaves()[k].buffer) == Some(j),
    ensures
        ws.pool.slots@[j].buf matches Buffer::Pdf(p) ==> status::title(ws, i)
            == crate::buffer::shown_name(p.path@),
        ws.pool.slots@[j].buf matches Buffer::Explorer(e) ==> status::title(ws, i)
            == explorer::bracketed_name(e.cwd@),
{
}

/// A tab without a buffer is called by its number, counted from 1.
pub proof fn lemma_numbered_tab(i: nat)
    ensures
        status::numbered(i as int) == "tab "@ + text::decimal(i + 1),
{
}

/// A line of a list stands below the header, as wide as the list, and only the
/// selected one is reversed.
pub proof fn lemma_list_line(line: Seq<char>, body: CellRect, row: int)
    ensures
        screen::overlay_line(line, body, true, row) == sixel_write::cursor_to(
            body.col as int,
            body.row + 1 + row,
        ) + "\x1b[7m"@ + screen::filled(line, body.cols as nat) + "\x1b[0m"@,
        screen::overlay_line(line, body, false, row) == sixel_write::cursor_to(
            body.col as int,
            body.row + 1 + row,
        ) + screen::filled(line, body.cols as nat),
{
    let at = sixel_write::cursor_to(body.col as int, body.row + 1 + row);
    let t = screen::filled(line, body.cols as nat);
    assert(screen::overlay_line(line, body, false, row) =~= at + t);
}

/// The lines of a list follow one another from the first that is shown.
pub proof fn lemma_list_lines(
    lines: Seq<Seq<char>>,
    body: CellRect,
    selected: int,
    first: int,
    n: nat,
)
    ensures
        screen::overlay_lines(lines, body, selected, first, n + 1) == screen::overlay_lines(
            lines,
            body,
            selected,
            first,
            n,
        ) + screen::overlay_line(
            lines[first + n],
            body,
            first + n == selected,
            n as int,
        ),
        screen::overlay_lines(lines, body, selected, first, 0).len() == 0,
{
}

/// A directory has a slash behind its name and a document has none; only the
/// selected entry is reversed, and an entry stands below the path.
pub proof fn lemma_directory_line(ex: ExplorerBuffer, rect: CellRect, i: int, row: int)
    requires
        0 <= i < ex.entries@.len(),
    ensures
        ({
            let e = ex.entries@[i];
            let at = sixel_write::cursor_to(rect.col as int, rect.row + 1 + row);
            let name = screen::clipped(screen::entry_label(e), rect.cols as nat);
            &&& e.kind == ExplorerKind::Pdf ==> screen::entry_label(e) == e.name@
            &&& e.kind != ExplorerKind::Pdf ==> screen::entry_label(e) == e.name@ + "/"@
            &&& i == ex.selected ==> screen::entry_line(ex, rect, i, row) == at + "\x1b[7m"@
                + screen::entry_style(e) + name + "\x1b[0m"@ + "\x1b[0m"@
            &&& i != ex.selected ==> screen::entry_line(ex, rect, i, row) == at
                + screen::entry_style(e) + name + "\x1b[0m"@
        }),
{
    let e = ex.entries@[i];
    let at = sixel_write::cursor_to(rect.col as int, rect.row + 1 + row);
    let name = screen::clipped(screen::entry_label(e), rect.cols as nat);
    if i != ex.selected {
        assert(screen::entry_line(ex, rect, i, row) =~= at + screen::entry_style(e) + name
            + "\x1b[0m"@);
    }
}

/// The entries of a directory follow one another from the first that is shown.
pub proof fn lemma_directory_lines(ex: ExplorerBuffer, rect: CellRect, first: int, n: nat)
    ensures
        screen::entry_lines(ex, rect, first, n + 1) == screen::entry_lines(ex, rect, first, n)
            + screen::entry_line(ex, rect, first + n, n as int),
        screen::entry_lines(ex, rect, first, 0).len() == 0,
{
}

/// A row of the palette stands at the first column, and only the chosen one is
/// reversed; rows follow one another.
pub proof fn lemma_palette_line(
    lines: Seq<Seq<char>>,
    chosen: usize,
    first: int,
    row: int,
    cols: nat,
    n: nat,
)
    ensures
        screen::palette_line(lines[0], row, cols, true) == sixel_write::cursor_to(0, row)
            + "\x1b[7m"@ + screen::filled(lines[0], cols) + "\x1b[0m"@,
        screen::palette_line(lines[0], row, cols, false) == sixel_write::cursor_to(0, row)
            + screen::filled(lines[0], cols),
        screen::palette_lines(lines, Some(chosen), first, row, cols, n + 1)
            == screen::palette_lines(lines, Some(chosen), first, row, cols, n)
            + screen::palette_line(
            lines[first + n],
            row + n,
            cols,
            chosen == first + n,
        ),
{
    assert(screen::palette_line(lines[0], row, cols, false) =~= sixel_write::cursor_to(0, row)
        + screen::filled(lines[0], cols));
}

/// Rows are cleared one after the other, each from its beginning; rows are
/// counted from 1 for the terminal.
pub proof fn lemma_rows_cleared(top: int, n: nat)
    requires
        0 <= top,
    ensures
        screen::cleared_row(top) == seq!['\u{1b}', '['] + text::decimal((top + 1) as nat)
            + ";1H\x1b[2K"@,
        screen::cleared_rows(top, top + n + 1) == screen::cleared_rows(top, top + n)
            + screen::cleared_row(top + n),
        screen::cleared_rows(top, top).len() == 0,
{
    reveal_strlit("\x1b[");
    assert("\x1b["@ =~= seq!['\u{1b}', '[']);
}

/// A rectangle is blanked with spaces in each of its rows, from its first
/// column.
pub proof fn lemma_blanked(col: nat, row: nat, cols: nat, rows: nat, i: int)
    ensures
        sixel_write::blanks(col as int, row as int, cols, rows + 1) == sixel_write::blanks(
            col as int,
            row as int,
            cols,
            rows,
        ) + sixel_write::cursor_to(col as int, (row + rows) as int) + sixel_write::spaces(cols),
        sixel_write::blanks(col as int, row as int, cols, 0).len() == 0,
        sixel_write::spaces(cols).len() == cols,
        0 <= i < cols ==> sixel_write::spaces(cols)[i] == ' ',
{
}

/// The cursor of a prompt stands behind what was typed and the sign before it.
pub proof fn lemma_prompt_cursor(row: nat, typed: nat)
    requires
        typed < 65_000,
    ensures
        screen::prompt_cursor_text(row as int, typed) == sixel_write::cursor_to(
            (typed + 1) as int,
            row as int,
        ),
{
    assert(typed as int % 0x1_0000 == typed);
    assert(text::decimal((typed + 1 + 1) as nat) == text::decimal((typed + 2) as nat));
}

/// A mark is listed with its letter, its page, counted from 1, and its place.
pub proof fn lemma_mark_listed(m: Bookmark)
    requires
        m.page < usize::MAX,
    ensures
        lists::mark_text(m) == "  '"@ + seq![m.mark] + "    page "@ + text::decimal(
            (m.page + 1) as nat,
        ) + "    ("@ + text::signed_decimal(m.x_off as int) + ","@ + text::signed_decimal(
            m.y_off as int,
        ) + ")"@,
{
}

/// What a search says: which hit out of how many, or that there is none.
pub proof fn lemma_search_message(query: Seq<char>, current: nat, total: nat)
    ensures
        messages::hit_words(current, total) == "["@ + text::decimal(current) + "/"@
            + text::decimal(total) + "]"@,
        total > 0 ==> messages::search_words(query, current, total) == "/"@ + query + "  "@
            + messages::hit_words(current, total),
        total == 0 ==> "no match for "@.is_prefix_of(
            messages::search_words(query, current, total),
        ),
{
    if total == 0 {
        let s = messages::search_words(query, current, total);
        let head = "no match for "@;
        assert(s.subrange(0, head.len() as int) =~= head);
    }
}

/// A document's text goes to a file that is named after it and the process.
pub proof fn lemma_text_file(path: Seq<char>, name: Seq<char>, process: nat)
    requires
        paths::file_name(path) == Some(name),
    ensures
        export::text_name(path, process) == "svreader-"@ + export::stem(name) + "-"@
            + text::decimal(process) + ".txt"@,
{
}

/// The time of a frame is that of all its stages together.
pub proof fn lemma_badge(t: FrameTiming)
    ensures
        t.spec_total() == t.render + t.compose + t.encode + t.write + t.other,
        t.badge() == "load:"@ + text::decimal(
            crate::timings::millis(t.render + t.compose + t.encode + t.write + t.other),
        ) + "ms r:"@ + text::decimal(crate::timings::millis(t.render as int)) + " cm:"@
            + text::decimal(crate::timings::millis(t.compose as int)) + " en:"@ + text::decimal(
            crate::timings::millis(t.encode as int),
        ) + " tx:"@ + text::decimal(crate::timings::millis(t.write as int)) + " ot:"@
            + text::decimal(crate::timings::millis(t.other as int)),
{
}

/// The status bar of a document has its name, place, rendering and search, in
/// this order, and that of a directory its path; the notes come last.
pub proof fn lemma_status_line<D: PageMetrics>(
    ws: Workspace<D>,
    fig: Figures,
    hint: Seq<char>,
    message: Option<Seq<char>>,
)
    ensures
        ({
            let line = status::status_line(ws, fig, hint, message);
            let w = ws.focus_now();
            let notes = status::notes_text(ws, hint, message);
            &&& crate::reading::focused_buffer(ws) matches Some(Buffer::Explorer(ex)) ==> line
                == status::directory_text(ex) + notes
            &&& crate::reading::focused_buffer(ws) matches Some(Buffer::Pdf(p)) ==> {
                let place = status::place_text(
                    crate::buffer::shown_name(p.path@),
                    p.pdf.pages(),
                    w,
                    fig,
                );
                &&& place.is_prefix_of(line)
                &&& line.skip(place.len() as int) == status::render_text(w, fig)
                    + status::search_text(Some(Buffer::Pdf(p)), w) + notes
            }
        }),
{
    if let Some(Buffer::Pdf(p)) = crate::reading::focused_buffer(ws) {
        let w = ws.focus_now();
        let line = status::status_line(ws, fig, hint, message);
        let notes = status::notes_text(ws, hint, message);
        let place = status::place_text(
            crate::buffer::shown_name(p.path@),
            p.pdf.pages(),
            w,
            fig,
        );
        let rest = status::render_text(w, fig) + status::search_text(Some(Buffer::Pdf(p)), w)
            + notes;
        assert(line =~= place + rest);
        assert(line.skip(place.len() as int) =~= rest);
    }
}

/// The status bar is drawn over the last row of the terminal.
pub proof fn lemma_status_row<D: PageMetrics>(
    ws: Workspace<D>,
    fig: Figures,
    hint: Seq<char>,
    message: Option<Seq<char>>,
    geom: TermGeom,
)
    requires
        geom.rows > 0,
    ensures
        ({
            let drawn = status::status_text(ws, fig, hint, message, geom);
            let row = screen::cleared_row(geom.rows - 1);
            &&& row.is_prefix_of(drawn)
            &&& drawn.skip(row.len() as int) == "\x1b[48;5;236m\x1b[38;5;252m"@ + screen::filled(
                status::status_line(ws, fig, hint, message),
                geom.cols as nat,
            ) + "\x1b[0m"@
        }),
{
    let row = screen::cleared_row(geom.rows - 1);
    let bar = "\x1b[48;5;236m\x1b[38;5;252m"@ + screen::filled(
        status::status_line(ws, fig, hint, message),
        geom.cols as nat,
    ) + "\x1b[0m"@;
    let drawn = status::status_text(ws, fig, hint, message, geom);
    assert(drawn =~= row + bar);
    assert(drawn.skip(row.len() as int) =~= bar);
}

/// A list is drawn behind its header, which has the first row: without lines
/// there is the header alone, and with them as many are drawn as there are rows
/// below it.
pub proof fn lemma_list_drawn(
    header: Seq<char>,
    lines: Seq<Seq<char>>,
    body: CellRect,
    selected: int,
)
    requires
        body.cols > 0,
        body.rows > 1,
        0 <= selected < lines.len(),
    ensures
        ({
            let bare = screen::overlay_text(header, Seq::empty(), body, 0);
            let drawn = screen::overlay_text(header, lines, body, selected);
            let rows = body.rows - 1;
            let first: int = if selected < rows {
                0
            } else {
                selected + 1 - rows
            };
            let n: int = if lines.len() - first < rows {
                lines.len() - first
            } else {
                rows
            };
            &&& bare == screen::wiped(body, body.rows as nat) + sixel_write::cursor_to(
                body.col as int,
                body.row as int,
            ) + "\x1b[48;5;236m\x1b[38;5;252m"@ + screen::filled(header, body.cols as nat)
                + "\x1b[0m"@
            &&& drawn == bare + screen::overlay_lines(lines, body, selected, first, n as nat)
        }),
{
    let bare = screen::overlay_text(header, Seq::empty(), body, 0);
    let head = screen::wiped(body, body.rows as nat) + sixel_write::cursor_to(
        body.col as int,
        body.row as int,
    ) + "\x1b[48;5;236m\x1b[38;5;252m"@ + screen::filled(header, body.cols as nat) + "\x1b[0m"@;
    assert(bare =~= head);
}

/// Where there is no room nothing is drawn.
pub proof fn lemma_no_room(
    header: Seq<char>,
    lines: Seq<Seq<char>>,
    ex: ExplorerBuffer,
    body: CellRect,
    selected: int,
)
    requires
        body.cols == 0 || body.rows == 0,
    ensures
        screen::overlay_text(header, lines, body, selected).len() == 0,
        screen::explorer_text(ex, body).len() == 0,
{
}

/// A directory is drawn with its path in the first row and its entries below,
/// the selected one among them.
pub proof fn lemma_directory_drawn(ex: ExplorerBuffer, rect: CellRect)
    requires
        rect.cols > 0,
        rect.rows > 1,
        ex.selected < ex.entries@.len(),
    ensures
        ({
            let head = sixel_write::cursor_to(rect.col as int, rect.row as int)
                + "\x1b[38;5;244m"@ + screen::clipped(ex.cwd@, rect.cols as nat) + "\x1b[0m"@;
            let rows = rect.rows - 1;
            let first: int = if ex.selected < rows {
                0
            } else {
                ex.selected + 1 - rows
            };
            let n: int = if ex.entries@.len() - first < rows {
                ex.entries@.len() - first
            } else {
                rows
            };
            &&& screen::explorer_text(ex, rect) == head + screen::entry_lines(
                ex,
                rect,
                first,
                n as nat,
            )
            &&& first <= ex.selected < first + n
        }),
{
}

/// The palette ends with what is typed, in the last of its rows; its lines
/// stand right above.
pub proof fn lemma_palette_drawn(
    top: int,
    bottom: int,
    cols: nat,
    input: Seq<char>,
    lines: Seq<Seq<char>>,
)
    requires
        0 <= top,
        top + lines.len() < bottom,
    ensures
        ({
            let n = lines.len();
            let typed = sixel_write::cursor_to(0, bottom - 1) + screen::filled(
                seq![':'] + input,
                cols,
            );
            screen::palette_text(top, bottom, cols, input, lines, None) == screen::cleared_rows(
                top,
                bottom,
            ) + screen::palette_lines(lines, None, 0, bottom - 1 - n, cols, n) + typed
        }),
{
    let n = lines.len();
    let typed = sixel_write::cursor_to(0, bottom - 1) + screen::filled(seq![':'] + input, cols);
    assert(screen::palette_text(top, bottom, cols, input, lines, None) =~= screen::cleared_rows(
        top,
        bottom,
    ) + screen::palette_lines(lines, None, 0, bottom - 1 - n, cols, n) + typed);
}

/// The help is drawn line by line from the top, and rows below it are cleared.
pub proof fn lemma_help_drawn(top: int, cols: nat, n: nat)
    ensures
        n < screen::help_page().len() ==> screen::help_rows(top, cols, n + 1)
            == screen::help_rows(top, cols, n) + screen::cleared_row(top + n) + screen::clipped(
            screen::help_page()[n as int],
            cols,
        ),
        n >= screen::help_page().len() ==> screen::help_rows(top, cols, n + 1)
            == screen::help_rows(top, cols, n) + screen::cleared_row(top + n),
        screen::help_rows(top, cols, 0).len() == 0,
{
    if n >= screen::help_page().len() {
        assert(screen::help_rows(top, cols, n + 1) =~= screen::help_rows(top, cols, n)
            + screen::cleared_row(top + n));
    }
}

/// What the help says of the keys that come in pairs.
pub proof fn lemma_help_of_pairs()
    ensures
        screen::help_page().contains("   j / k         next / prev screen (10% overlap)"@),
        screen::help_page().contains("   ↓ / ↑         fine scroll down/up (10% of viewport)"@),
        screen::help_page().contains("   Ctrl-d/u      half-screen down/up"@),
        screen::help_page().contains("   Ctrl-f/b      next/prev page (no overlap)"@),
        screen::help_page().contains("   gg / G        first / last page"@),
        screen::help_page().contains("   H M L         page top / middle / bottom"@),
        screen::help_page().contains("   h / l         scroll left / right"@),
        screen::help_page().contains("   + / -         zoom in / out"@),
        screen::help_page().contains("   r / R         rotate CW / CCW"@),
        screen::help_page().contains("   Ctrl-w s / v     split horizontal / vertical"@),
        screen::help_page().contains("   gt / gT       next / previous tab"@),
{
    let page = screen::help_page();
    assert(page[2] == "   j / k         next / prev screen (10% overlap)"@);
    assert(page[3] == "   ↓ / ↑         fine scroll down/up (10% of viewport)"@);
    assert(page[4] == "   Ctrl-d/u      half-screen down/up"@);
    assert(page[5] == "   Ctrl-f/b      next/prev page (no overlap)"@);
    assert(page[6] == "   gg / G        first / last page"@);
    assert(page[7] == "   H M L         page top / middle / bottom"@);
    assert(page[8] == "   h / l         scroll left / right"@);
    assert(page[10] == "   + / -         zoom in / out"@);
    assert(page[11] == "   r / R         rotate CW / CCW"@);
    assert(page[21] == "   Ctrl-w s / v     split horizontal / vertical"@);
    assert(page[23] == "   gt / gT       next / previous tab"@);
}

/// At the start the terminal is told whether a file is loaded or a directory
/// shown, and which.
pub proof fn lemma_startup_told(path: Seq<char>)
    ensures
        screen::startup_text(Some(path), true) == "svreader — opening explorer at "@ + path
            + "...\r\n"@,
        screen::startup_text(Some(path), false) == "svreader — loading "@ + path + "...\r\n"@,
        screen::startup_text(None, true) == screen::startup_text(None, false),
{
}

/// The header of a list counts what it lists.
pub proof fn lemma_headers_count(n: nat)
    ensures
        (" TOC — "@ + text::decimal(n)).is_prefix_of(lists::toc_header(n)),
        (" marks ("@ + text::decimal(n)).is_prefix_of(lists::marks_header(n)),
{
    let a = " TOC — "@ + text::decimal(n);
    assert(lists::toc_header(n).take(a.len() as int) =~= a);
    let b = " marks ("@ + text::decimal(n);
    assert(lists::marks_header(n).take(b.len() as int) =~= b);
}

/// What is said of a line that cannot be obeyed names the command that is
/// unknown, and quotes the argument that does not fit behind the usage.
pub proof fn lemma_refusals_told(name: String, usage: &'static str, arg: String)
    ensures
        CommandError::Empty.words() == "empty command"@,
        CommandError::OnlyVerticalResize.words() == "only `:vertical resize` is supported"@,
        (CommandError::Unknown { name }).words() == "unknown command: "@ + name@,
        (CommandError::Usage { usage, got: None }).words() == usage@,
        usage@.is_prefix_of((CommandError::Usage { usage, got: Some(arg) }).words()),
        (CommandError::Usage { usage, got: Some(arg) }).words().skip(usage@.len() as int)
            == " (got "@ + messages::quoted(arg@) + ")"@,
{
    let all = (CommandError::Usage { usage, got: Some(arg) }).words();
    let rest = " (got "@ + messages::quoted(arg@) + ")"@;
    assert(all =~= usage@ + rest);
    assert(all.skip(usage@.len() as int) =~= rest);
}

} // verus!
