//! The tab bar and the status bar.
use vstd::prelude::*;

use crate::buffer::{self, Buffer};
use crate::document::PageMetrics;
use crate::explorer::{self, ExplorerBuffer};
use crate::pool;
use crate::reading;
use crate::screen::{self, push_cleared_row, push_clipped, push_filled, STATUS_ROWS};
use crate::splits;
use crate::terminal::TermGeom;
use crate::text::{self, push_decimal, push_ordinal, push_signed, push_str};
use crate::window::{self, Window};
use crate::workspace::Workspace;

verus! {

/// Numbers of the status bar that come from measurements.
#[derive(Debug)]
pub struct Figures {
    /// The zoom in percent, for a zoom that fits nothing.
    pub zoom_percent: String,
    /// Dots per inch of what is shown.
    pub dpi: i32,
    /// The render quality in percent, where it is not the usual one.
    pub quality: Option<i32>,
    /// Pages in the page cache, and how many fit in.
    pub pages: (usize, usize),
    /// Frames in the frame cache, and how many fit in.
    pub frames: (usize, usize),
}

// ------------------------------ Tab bar ------------------------------

/// The name of a buffer.
pub open spec fn buffer_name<D>(b: Buffer<D>) -> Seq<char> {
    match b {
        Buffer::Pdf(p) => buffer::shown_name(p.path@),
        Buffer::Explorer(e) => explorer::bracketed_name(e.cwd@),
    }
}

/// The title of a tab without a buffer.
pub open spec fn numbered(i: int) -> Seq<char> {
    "tab "@ + text::decimal((i + 1) as nat)
}

/// The title of a tab: the name of what its focused window shows.
pub open spec fn title<D>(ws: Workspace<D>, i: int) -> Seq<char> {
    if i >= ws.tabs@.len() {
        numbered(i)
    } else {
        let t = ws.tabs@[i];
        match window::position(t.tree.leaves(), t.focused) {
            Some(k) => match pool::slot_at(ws.pool.slots@, t.tree.leaves()[k].buffer) {
                Some(j) => buffer_name(ws.pool.slots@[j].buf),
                None => numbered(i),
            },
            None => numbered(i),
        }
    }
}

/// The title of a tab.
pub fn tab_title<D>(ws: &Workspace<D>, tab_idx: usize) -> (s: String)
    ensures
        s@ == title(*ws, tab_idx as int),
{
    if let Some(tab) = ws.tab(tab_idx) {
        if let Some(w) = tab.tree.find(tab.focused) {
            if let Some(b) = ws.buffer(w.buffer) {
                return b.display_name();
            }
        }
    }
    let mut s: String = String::new();
    push_str(&mut s, "tab ");
    assert(s@ =~= "tab "@);
    push_ordinal(&mut s, tab_idx);
    s
}

/// How a tab is written in the tab bar.
pub open spec fn tab_label<D>(ws: Workspace<D>, i: int) -> Seq<char> {
    (if i == ws.current_tab {
        "\x1b[48;5;238m\x1b[38;5;252m "@
    } else {
        "\x1b[48;5;236m\x1b[38;5;244m "@
    }) + title(ws, i) + " "@ + "\x1b[0m"@
}

/// The first `n` tabs of the tab bar.
pub open spec fn tab_labels<D>(ws: Workspace<D>, n: nat) -> Seq<char>
    decreases n,
{
    if n == 0 {
        Seq::empty()
    } else {
        tab_labels(ws, (n - 1) as nat) + tab_label(ws, n - 1)
    }
}

/// The tab bar, on the first row; nothing where there is one tab.
pub open spec fn tab_bar_text<D>(ws: Workspace<D>, cols: u16) -> Seq<char> {
    if ws.tabs@.len() <= 1 {
        Seq::empty()
    } else {
        "\x1b[1;1H\x1b[2K"@ + screen::clipped(
            tab_labels(ws, ws.tabs@.len()),
            (cols * 16) as nat,
        )
    }
}

fn tab_string<D>(ws: &Workspace<D>, i: usize) -> (s: String)
    ensures
        s@ == tab_label(*ws, i as int),
{
    let mut s: String = String::new();
    if i == ws.current_tab {
        push_str(&mut s, "\x1b[48;5;238m\x1b[38;5;252m ");
        assert(s@ =~= "\x1b[48;5;238m\x1b[38;5;252m "@);
    } else {
        push_str(&mut s, "\x1b[48;5;236m\x1b[38;5;244m ");
        assert(s@ =~= "\x1b[48;5;236m\x1b[38;5;244m "@);
    }
    let name: String = tab_title(ws, i);
    push_str(&mut s, name.as_str());
    push_str(&mut s, " ");
    push_str(&mut s, "\x1b[0m");
    s
}

/// What draws the tab bar.
pub fn draw_tab_bar<D>(ws: &Workspace<D>, geom: TermGeom) -> (s: String)
    ensures
        s@ == tab_bar_text(*ws, geom.cols),
{
    let mut out: String = String::new();
    assert(out@ =~= Seq::empty());
    let n: usize = ws.tab_count();
    if n <= 1 {
        return out;
    }
    push_str(&mut out, "\x1b[1;1H\x1b[2K");
    assert(out@ =~= "\x1b[1;1H\x1b[2K"@);
    let mut line: String = String::new();
    let mut i: usize = 0;
    assert(line@ =~= tab_labels(*ws, 0));
    while i < n
        invariant
            i <= n == ws.tabs@.len(),
            line@ == tab_labels(*ws, i as nat),
        decreases n - i,
    {
        let tab: String = tab_string(ws, i);
        push_str(&mut line, tab.as_str());
        i += 1;
    }
    push_clipped(&mut out, line.as_str(), geom.cols as usize * 16);
    out
}

// ------------------------------ Status bar ------------------------------

/// What the status bar says of a directory.
pub open spec fn directory_text(ex: ExplorerBuffer) -> Seq<char> {
    let count = ex.entries@.len();
    " "@ + explorer::bracketed_name(ex.cwd@) + " | "@ + text::decimal(
        if count == 0 {
            0
        } else {
            (ex.selected + 1) as nat
        },
    ) + "/"@ + text::decimal(count) + " "@ + (if ex.selected < count {
        "| "@ + ex.entries@[ex.selected as int].name@
    } else {
        Seq::empty()
    })
}

fn directory_string(ex: &ExplorerBuffer) -> (s: String)
    ensures
        s@ == directory_text(*ex),
{
    let mut s: String = String::new();
    push_str(&mut s, " ");
    assert(s@ =~= " "@);
    let name: String = ex.display_name();
    push_str(&mut s, name.as_str());
    push_str(&mut s, " | ");
    if ex.entries.len() == 0 {
        push_decimal(&mut s, 0);
    } else {
        push_ordinal(&mut s, ex.selected);
    }
    push_str(&mut s, "/");
    push_decimal(&mut s, ex.entries.len() as u64);
    push_str(&mut s, " ");
    let ghost sofar = s@;
    match ex.selected_entry() {
        Some(e) => {
            push_str(&mut s, "| ");
            push_str(&mut s, e.name.as_str());
            assert(s@ =~= sofar + ("| "@ + e.name@));
        },
        None => {
            assert(s@ =~= sofar + Seq::empty());
        },
    }
    s
}

/// Name, page, zoom and rotation.
pub open spec fn place_text(name: Seq<char>, pages: nat, w: Window, fig: Figures) -> Seq<char> {
    " "@ + name + " | "@ + text::decimal((w.viewport.page_idx + 1) as nat) + "/"@ + text::decimal(
        if pages == 0 {
            1
        } else {
            pages
        },
    ) + " | "@ + w.viewport.zoom.spec_label(fig.zoom_percent@) + " | "@ + text::decimal(
        (90 * w.viewport.rotation.quarters()) as nat,
    ) + "\u{00B0}"@
}

fn place_string(name: &str, pages: usize, w: &Window, fig: &Figures) -> (s: String)
    ensures
        s@ == place_text(name@, pages as nat, *w, *fig),
{
    let mut s: String = String::new();
    push_str(&mut s, " ");
    assert(s@ =~= " "@);
    push_str(&mut s, name);
    push_str(&mut s, " | ");
    push_ordinal(&mut s, w.viewport.page_idx);
    push_str(&mut s, "/");
    push_decimal(
        &mut s,
        if pages == 0 {
            1
        } else {
            pages as u64
        },
    );
    push_str(&mut s, " | ");
    let zoom: String = w.viewport.zoom.label(fig.zoom_percent.as_str());
    push_str(&mut s, zoom.as_str());
    push_str(&mut s, " | ");
    push_decimal(&mut s, w.viewport.rotation.degrees() as u64);
    push_str(&mut s, "\u{00B0}");
    s
}

/// Night mode, resolution, quality and caches.
pub open spec fn render_text(w: Window, fig: Figures) -> Seq<char> {
    (if w.viewport.night_mode {
        " [night]"@
    } else {
        Seq::empty()
    }) + " dpi:"@ + text::signed_decimal(fig.dpi as int) + (if w.viewport.render_dpi is Some {
        "*"@
    } else {
        Seq::empty()
    }) + (match fig.quality {
        Some(q) => " q:"@ + text::signed_decimal(q as int) + "%"@,
        None => Seq::empty(),
    }) + " RCache:"@ + text::decimal(fig.pages.0 as nat) + "/"@ + text::decimal(fig.pages.1 as nat)
        + " ECache:"@ + text::decimal(fig.frames.0 as nat) + "/"@ + text::decimal(
        fig.frames.1 as nat,
    )
}

fn render_string(w: &Window, fig: &Figures) -> (s: String)
    ensures
        s@ == render_text(*w, *fig),
{
    let mut s: String = String::new();
    if w.viewport.night_mode {
        push_str(&mut s, " [night]");
        assert(s@ =~= " [night]"@);
    } else {
        assert(s@ =~= Seq::empty());
    }
    push_str(&mut s, " dpi:");
    push_signed(&mut s, fig.dpi as i64);
    if w.viewport.render_dpi.is_some() {
        push_str(&mut s, "*");
    } else {
        assert(s@ =~= s@ + Seq::empty());
    }
    match fig.quality {
        Some(q) => {
            let ghost sofar = s@;
            push_str(&mut s, " q:");
            push_signed(&mut s, q as i64);
            push_str(&mut s, "%");
            assert(s@ =~= sofar + (" q:"@ + text::signed_decimal(q as int) + "%"@));
        },
        None => {
            assert(s@ =~= s@ + Seq::empty());
        },
    }
    push_str(&mut s, " RCache:");
    push_decimal(&mut s, fig.pages.0 as u64);
    push_str(&mut s, "/");
    push_decimal(&mut s, fig.pages.1 as u64);
    push_str(&mut s, " ECache:");
    push_decimal(&mut s, fig.frames.0 as u64);
    push_str(&mut s, "/");
    push_decimal(&mut s, fig.frames.1 as u64);
    s
}

/// An active search and the time of the last frame.
pub open spec fn search_text<D>(buf: Option<Buffer<D>>, w: Window) -> Seq<char> {
    (match buf {
        Some(Buffer::Pdf(p)) => if p.search.active() {
            " /"@ + p.search.query@ + " ["@ + text::decimal(
                match p.search.current {
                    Some(i) => (i + 1) as nat,
                    None => 0,
                },
            ) + "/"@ + text::decimal(p.search.matches@.len()) + "]"@
        } else {
            Seq::empty()
        },
        _ => Seq::empty(),
    }) + (match w.last_timing {
        Some(t) => " "@ + t.badge(),
        None => Seq::empty(),
    })
}

fn search_string<D>(buf: Option<&Buffer<D>>, w: &Window) -> (s: String)
    ensures
        s@ == search_text(
            match buf {
                Some(b) => Some(*b),
                None => None,
            },
            *w,
        ),
{
    let mut s: String = String::new();
    assert(s@ =~= Seq::empty());
    if let Some(Buffer::Pdf(p)) = buf {
        if p.search.is_active() {
            push_str(&mut s, " /");
            assert(s@ =~= " /"@);
            push_str(&mut s, p.search.query.as_str());
            push_str(&mut s, " [");
            match p.search.current {
                Some(i) => push_ordinal(&mut s, i),
                None => push_decimal(&mut s, 0),
            }
            push_str(&mut s, "/");
            push_decimal(&mut s, p.search.matches.len() as u64);
            push_str(&mut s, "]");
        }
    }
    match w.last_timing {
        Some(t) => {
            let ghost sofar = s@;
            push_str(&mut s, " ");
            let badge: String = t.short_label();
            push_str(&mut s, badge.as_str());
            assert(s@ =~= sofar + (" "@ + t.badge()));
        },
        None => {
            assert(s@ =~= s@ + Seq::empty());
        },
    }
    s
}

/// What the status bar says of a page.
pub open spec fn page_text<D: PageMetrics>(buf: Option<Buffer<D>>, w: Window, fig: Figures) -> Seq<
    char,
> {
    (match buf {
        Some(Buffer::Pdf(p)) => place_text(buffer::shown_name(p.path@), p.pdf.pages(), w, fig),
        _ => place_text("document"@, 1, w, fig),
    }) + render_text(w, fig) + search_text(buf, w)
}

/// How many windows and tabs there are, what is pending and a message.
pub open spec fn notes_text<D>(
    ws: Workspace<D>,
    hint: Seq<char>,
    message: Option<Seq<char>>,
) -> Seq<char> {
    let windows = ws.tab_now().tree.leaves().len();
    (if windows > 1 {
        " w:"@ + text::decimal(windows)
    } else {
        Seq::empty()
    }) + (if ws.tabs@.len() > 1 {
        " t:"@ + text::decimal((ws.current_tab + 1) as nat) + "/"@ + text::decimal(ws.tabs@.len())
    } else {
        Seq::empty()
    }) + (if hint.len() > 0 {
        " ["@ + hint + "]"@
    } else {
        Seq::empty()
    }) + (match message {
        Some(m) => " -- "@ + m,
        None => Seq::empty(),
    })
}

fn notes_string<D>(ws: &Workspace<D>, hint: &str, message: &Option<String>) -> (s: String)
    requires
        ws.live(),
    ensures
        s@ == notes_text(*ws, hint@, screen::text_of(*message)),
{
    let mut s: String = String::new();
    assert(s@ =~= Seq::empty());
    proof {
        splits::lemma_tab_small(*ws);
    }
    let windows: usize = ws.current_tab().tree.leaf_count();
    if windows > 1 {
        push_str(&mut s, " w:");
        assert(s@ =~= " w:"@);
        push_decimal(&mut s, windows as u64);
    }
    let ghost first = s@;
    if ws.tab_count() > 1 {
        push_str(&mut s, " t:");
        push_ordinal(&mut s, ws.current_tab);
        push_str(&mut s, "/");
        push_decimal(&mut s, ws.tab_count() as u64);
        assert(s@ =~= first + (" t:"@ + text::decimal((ws.current_tab + 1) as nat) + "/"@
            + text::decimal(ws.tabs@.len())));
    } else {
        assert(s@ =~= first + Seq::empty());
    }
    let ghost second = s@;
    if text::to_chars(hint).len() > 0 {
        push_str(&mut s, " [");
        push_str(&mut s, hint);
        push_str(&mut s, "]");
        assert(s@ =~= second + (" ["@ + hint@ + "]"@));
    } else {
        assert(s@ =~= second + Seq::empty());
    }
    let ghost third = s@;
    match message {
        Some(m) => {
            push_str(&mut s, " -- ");
            push_str(&mut s, m.as_str());
            assert(s@ =~= third + (" -- "@ + m@));
        },
        None => {
            assert(s@ =~= third + Seq::empty());
        },
    }
    s
}

/// The line of the status bar.
pub open spec fn status_line<D: PageMetrics>(
    ws: Workspace<D>,
    fig: Figures,
    hint: Seq<char>,
    message: Option<Seq<char>>,
) -> Seq<char> {
    (match reading::focused_buffer(ws) {
        Some(Buffer::Explorer(ex)) => directory_text(ex),
        buf => page_text(buf, ws.focus_now(), fig),
    }) + notes_text(ws, hint, message)
}

/// The status bar, on the last row.
pub open spec fn status_text<D: PageMetrics>(
    ws: Workspace<D>,
    fig: Figures,
    hint: Seq<char>,
    message: Option<Seq<char>>,
    geom: TermGeom,
) -> Seq<char> {
    screen::cleared_row(screen::less(geom.rows as int, STATUS_ROWS as int))
        + "\x1b[48;5;236m\x1b[38;5;252m"@ + screen::filled(
        status_line(ws, fig, hint, message),
        geom.cols as nat,
    ) + "\x1b[0m"@
}

/// What draws the status bar.
pub fn draw_status<D: PageMetrics>(
    ws: &Workspace<D>,
    fig: &Figures,
    hint: &str,
    message: &Option<String>,
    geom: TermGeom,
) -> (s: String)
    requires
        ws.live(),
    ensures
        s@ == status_text(*ws, *fig, hint@, screen::text_of(*message), geom),
{
    let w: Window = ws.focused_window();
    let buf: Option<&Buffer<D>> = ws.buffer(w.buffer);
    let mut line: String = match buf {
        Some(Buffer::Explorer(ex)) => directory_string(ex),
        _ => {
            let mut s: String = match buf {
                Some(Buffer::Pdf(p)) => {
                    let name: String = p.display_name();
                    place_string(name.as_str(), p.pdf.page_count(), &w, fig)
                },
                _ => place_string("document", 1, &w, fig),
            };
            let rendering: String = render_string(&w, fig);
            push_str(&mut s, rendering.as_str());
            let search: String = search_string(buf, &w);
            push_str(&mut s, search.as_str());
            s
        },
    };
    let notes: String = notes_string(ws, hint, message);
    push_str(&mut line, notes.as_str());
    assert(line@ == status_line(*ws, *fig, hint@, screen::text_of(*message)));
    let mut out: String = String::new();
    push_cleared_row(&mut out, geom.rows.saturating_sub(STATUS_ROWS));
    assert(out@ =~= screen::cleared_row(screen::less(geom.rows as int, STATUS_ROWS as int)));
    push_str(&mut out, "\x1b[48;5;236m\x1b[38;5;252m");
    push_filled(&mut out, line.as_str(), geom.cols as usize);
    push_str(&mut out, "\x1b[0m");
    out
}

} // verus!
