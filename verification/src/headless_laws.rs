//! What scripted keys, sizes and zooms mean, and how pages, frames and outlines
//! are written.
use vstd::prelude::*;

use crate::document::{Outline, PageMetrics};
use crate::export::{self, ClipboardTool};
use crate::headless::{self, KeySequenceErrorView, SizeError, ZoomArgView};
use crate::keys::{Key, KeyOutcome, KeyParserState};
use crate::lists::{self, TocLine};
use crate::number::Real32;
use crate::text;
use crate::viewport::{Viewport, ZoomMode};

verus! {

/// A size that is written as `WxH` is W wide and H high; without the separator
/// it is none.
pub proof fn lemma_size_argument(w: nat, h: nat)
    requires
        w <= u32::MAX,
        h <= u32::MAX,
    ensures
        headless::size_of(text::decimal(w) + seq!['x'] + text::decimal(h)) == Ok::<
            (nat, nat),
            SizeError,
        >((w, h)),
        headless::size_of(text::decimal(w)) == Err::<(nat, nat), _>(SizeError::NoSeparator),
{
    text::lemma_decimal_reads_back(w);
    text::lemma_decimal_reads_back(h);
    let a = text::decimal(w);
    let b = text::decimal(h);
    let s = a + seq!['x'] + b;
    assert(text::is_digit(a[0]) && text::is_digit(b[0]));
    text::lemma_find(s, 'x');
    text::lemma_find(a, 'x');
    assert forall|j: int| 0 <= j < a.len() implies #[trigger] a[j] != 'x' by {
        assert(text::is_digit(a[j]));
    }
    assert(s[a.len() as int] == 'x');
    let i = text::find(s, 'x')->0;
    if i < a.len() {
        assert(s[i] == a[i]);
    } else if i > a.len() {
        assert(s[a.len() as int] != 'x');
    }
    assert(s.take(i) =~= a);
    assert(s.skip(i + 1) =~= b);
}

/// The zooms that have a name, and one in percent.
pub proof fn lemma_zoom_argument(n: nat)
    ensures
        headless::zoom_of("fit-w"@) == Some(ZoomArgView::Fit(ZoomMode::FitWidth)),
        headless::zoom_of("fitwidth"@) == Some(ZoomArgView::Fit(ZoomMode::FitWidth)),
        headless::zoom_of("width"@) == Some(ZoomArgView::Fit(ZoomMode::FitWidth)),
        headless::zoom_of("fit-h"@) == Some(ZoomArgView::Fit(ZoomMode::FitHeight)),
        headless::zoom_of("fitheight"@) == Some(ZoomArgView::Fit(ZoomMode::FitHeight)),
        headless::zoom_of("height"@) == Some(ZoomArgView::Fit(ZoomMode::FitHeight)),
        headless::zoom_of("fit-p"@) == Some(ZoomArgView::Fit(ZoomMode::FitPage)),
        headless::zoom_of("fitpage"@) == Some(ZoomArgView::Fit(ZoomMode::FitPage)),
        headless::zoom_of("page"@) == Some(ZoomArgView::Fit(ZoomMode::FitPage)),
        headless::zoom_of(text::decimal(n).push('%')) == Some(
            ZoomArgView::Percent(text::decimal(n)),
        ),
{
    reveal_strlit("fit-w");
    reveal_strlit("fitwidth");
    reveal_strlit("width");
    reveal_strlit("fit-h");
    reveal_strlit("fitheight");
    reveal_strlit("height");
    reveal_strlit("fit-p");
    reveal_strlit("fitpage");
    reveal_strlit("page");
    assert("fit-w"@[3] == '-' && "fit-w"@[4] == 'w' && "fit-w"@[0] == 'f');
    assert("fit-h"@[3] == '-' && "fit-h"@[4] == 'h' && "fit-h"@[0] == 'f');
    assert("fit-p"@[3] == '-' && "fit-p"@[4] == 'p' && "fit-p"@[0] == 'f');
    assert("fitwidth"@[3] == 'w' && "fitheight"@[3] == 'h' && "fitpage"@[3] == 'p');
    assert("fitwidth"@[0] == 'f' && "fitheight"@[0] == 'f' && "fitpage"@[0] == 'f');
    assert("width"@[0] == 'w' && "height"@[0] == 'h' && "page"@[0] == 'p');
    let d = text::decimal(n);
    let s = d.push('%');
    text::lemma_decimal_reads_back(n);
    crate::commands_laws::lemma_digits_are_a_float(d);
    assert(text::is_digit(d[0]));
    assert(s[0] == d[0] && s.last() == '%');
    assert(s.drop_last() =~= d);
}

/// The keys that have a name in angle brackets.
pub proof fn lemma_key_names(c: char)
    ensures
        headless::named_key("Esc"@) == Some(Key::Esc),
        headless::named_key("Enter"@) == Some(Key::Enter),
        headless::named_key("CR"@) == Some(Key::Enter),
        headless::named_key("Tab"@) == Some(Key::Tab),
        headless::named_key("S-Tab"@) == Some(Key::BackTab),
        headless::named_key("Up"@) == Some(Key::Up),
        headless::named_key("Down"@) == Some(Key::Down),
        headless::named_key("Left"@) == Some(Key::Left),
        headless::named_key("Right"@) == Some(Key::Right),
        headless::named_key("PageUp"@) == Some(Key::PageUp),
        headless::named_key("PageDown"@) == Some(Key::PageDown),
        headless::named_key("Home"@) == Some(Key::Home),
        headless::named_key("End"@) == Some(Key::End),
        (c as int) < 128 ==> headless::named_key(seq!['C', '-', c]) == Some(Key::Ctrl(c)),
        (c as int) >= 128 ==> headless::named_key(seq!['C', '-', c]) is None,
{
    reveal_strlit("Esc");
    reveal_strlit("Enter");
    reveal_strlit("CR");
    reveal_strlit("Tab");
    reveal_strlit("S-Tab");
    reveal_strlit("Up");
    reveal_strlit("Down");
    reveal_strlit("Left");
    reveal_strlit("Right");
    reveal_strlit("PageUp");
    reveal_strlit("PageDown");
    reveal_strlit("Home");
    reveal_strlit("End");
    assert("Esc"@[0] == 'E' && "Esc"@[1] == 's');
    assert("Enter"@[0] == 'E' && "CR"@[0] == 'C' && "Tab"@[0] == 'T' && "S-Tab"@[0] == 'S');
    assert("Up"@[0] == 'U' && "Down"@[0] == 'D' && "Left"@[0] == 'L' && "Right"@[0] == 'R');
    assert("PageUp"@[0] == 'P' && "PageDown"@[0] == 'P' && "Home"@[0] == 'H');
    assert("PageUp"@.len() == 6 && "PageDown"@.len() == 8);
    assert("End"@[0] == 'E' && "End"@[1] == 'n');
    let k = seq!['C', '-', c];
    assert(k[0] == 'C' && k[1] == '-' && k[2] == c);
}

/// A sequence is read from left to right: a plain character is its own key,
/// and a name in angle brackets is the key of that name.
pub proof fn lemma_sequence_read(c: char, name: Seq<char>, rest: Seq<char>)
    requires
        forall|i: int| 0 <= i < name.len() ==> #[trigger] name[i] != '>',
    ensures
        c != '<' ==> headless::key_sequence(seq![c] + rest) == headless::after_keys(
            seq![Key::Char(c)],
            headless::key_sequence(rest),
        ),
        headless::named_key(name) matches Some(k) ==> headless::key_sequence(
            seq!['<'] + name + seq!['>'] + rest,
        ) == headless::after_keys(seq![k], headless::key_sequence(rest)),
        headless::named_key(name) is None ==> headless::key_sequence(
            seq!['<'] + name + seq!['>'] + rest,
        ) == Err::<Seq<Key>, _>(KeySequenceErrorView::UnknownKey(name)),
        headless::key_sequence(Seq::empty()) == Ok::<Seq<Key>, KeySequenceErrorView>(Seq::empty()),
{
    let s = seq![c] + rest;
    assert(s[0] == c && s.skip(1) =~= rest);
    let t = seq!['<'] + name + seq!['>'] + rest;
    text::lemma_find(t, '>');
    assert(t[0] == '<');
    assert(t[name.len() as int + 1] == '>');
    let i = text::find(t, '>')->0;
    if i < name.len() + 1 {
        if i > 0 {
            assert(t[i] == name[i - 1]);
        }
    } else if i > name.len() + 1 {
        assert(t[name.len() as int + 1] != '>');
    }
    assert(t.subrange(1, i) =~= name);
    assert(t.skip(i + 1) =~= rest);
}

/// Keys that lead to no action show no frame, and `q` ends the frames.
pub proof fn lemma_quit_ends_frames<D: PageMetrics, F: Fn(Real32, Real32) -> Real32>(
    doc: &D,
    v: Viewport,
    rest: Seq<Key>,
    times: &F,
    frames: Seq<Viewport>,
    e: Option<crate::document::PageError>,
)
    requires
        headless::simulated(
            doc,
            KeyParserState::cleared(),
            v,
            seq![Key::Char('q')] + rest,
            times,
            frames,
            e,
        ),
    ensures
        frames.len() == 0,
        e is None,
{
    let ks = seq![Key::Char('q')] + rest;
    assert(ks[0] == Key::Char('q'));
    assert(crate::keys::fed(KeyParserState::cleared(), ks[0]).1 == KeyOutcome::Quit);
}

/// The lines of two outlines one after the other are the lines of both.
pub proof fn lemma_outlines_join(a: Seq<Outline>, b: Seq<Outline>, depth: int)
    ensures
        lists::flattened(a + b, depth) == lists::flattened(a, depth) + lists::flattened(b, depth),
    decreases b.len(),
{
    if b.len() == 0 {
        assert(a + b =~= a);
        assert(lists::flattened(a, depth) + Seq::<TocLine>::empty() =~= lists::flattened(a, depth));
    } else {
        let s = a + b;
        let less = b.subrange(0, b.len() - 1);
        lemma_outlines_join(a, less, depth);
        assert(s.subrange(0, s.len() - 1) =~= a + less);
        assert(s[s.len() - 1] == b[b.len() - 1]);
        let item = b[b.len() - 1];
        let x = seq![lists::toc_line_of(item, depth)];
        let y = lists::flattened(item.children@, lists::deeper(depth));
        assert(lists::flattened(s, depth) =~= lists::flattened(a, depth) + lists::flattened(
            b,
            depth,
        ));
    }
}

/// A node comes right before what is below it, which is one level deeper. Its
/// line has its title and its page, or the first page where it leads nowhere.
pub proof fn lemma_node_before_children(item: Outline, depth: int)
    requires
        0 <= depth < usize::MAX,
    ensures
        ({
            let lines = lists::flattened(seq![item], depth);
            &&& lines.len() > 0
            &&& lines[0].title == item.title@
            &&& lines[0].depth == depth
            &&& item.page matches Some(p) ==> lines[0].page == p
            &&& item.page is None ==> lines[0].page == 0
            &&& lines.skip(1) == lists::flattened(item.children@, depth + 1)
        }),
{
    let items = seq![item];
    assert(items.subrange(0, 0) =~= Seq::<Outline>::empty());
    reveal_with_fuel(lists::flattened, 2);
    let below = lists::flattened(item.children@, depth + 1);
    let lines = lists::flattened(items, depth);
    assert(lines =~= seq![lists::toc_line_of(item, depth)] + below);
    assert(lines.skip(1) =~= below);
}

/// In a printed outline pages are counted from 1.
pub proof fn lemma_printed_node(item: Outline, depth: nat)
    ensures
        item.page matches Some(p) ==> headless::node_text(item, depth as int) == lists::indent(
            depth,
        ) + item.title@ + seq![' ', 'p'] + text::decimal((p + 1) as nat),
        item.page is None ==> headless::node_text(item, depth as int) == lists::indent(depth)
            + item.title@,
{
    reveal_strlit(" p");
    assert(" p"@ =~= seq![' ', 'p']);
    if let Some(p) = item.page {
        assert(headless::node_text(item, depth as int) =~= lists::indent(depth) + item.title@ + seq![
            ' ',
            'p',
        ] + text::decimal((p + 1) as nat));
    } else {
        assert(headless::node_text(item, depth as int) =~= lists::indent(depth) + item.title@);
    }
}

/// Frames are numbered with four digits at least, so that their names are in
/// the order of their numbers.
pub proof fn lemma_frame_names(n: nat)
    ensures
        n < 10_000 ==> export::frame_name(n).len() == 14,
        exists|zeros: Seq<char>|
            {
                &&& forall|i: int| 0 <= i < zeros.len() ==> #[trigger] zeros[i] == '0'
                &&& export::frame_name(n) == "frame_"@ + zeros + text::decimal(n) + ".png"@
            },
{
    reveal_strlit("frame_");
    reveal_strlit(".png");
    reveal_strlit("000");
    reveal_strlit("00");
    reveal_strlit("0");
    reveal_strlit("");
    reveal_with_fuel(text::decimal, 4);
    let zeros = if n < 10 {
        "000"@
    } else if n < 100 {
        "00"@
    } else if n < 1000 {
        "0"@
    } else {
        ""@
    };
    assert("000"@[0] == '0' && "000"@[1] == '0' && "000"@[2] == '0');
    assert("00"@[0] == '0' && "00"@[1] == '0');
    assert("0"@[0] == '0');
    assert(forall|i: int| 0 <= i < zeros.len() ==> #[trigger] zeros[i] == '0');
    assert(export::frame_name(n) == "frame_"@ + zeros + text::decimal(n) + ".png"@);
}

/// The pages of an exported text follow one another, each under its number,
/// counted from 1.
pub proof fn lemma_text_of_pages(pages: Seq<Result<String, String>>, n: nat)
    requires
        n < pages.len(),
    ensures
        pages[n as int] matches Ok(t) ==> export::text_pages(pages, n + 1) == export::text_pages(
            pages,
            n,
        ) + (if n == 0 {
            ""@
        } else {
            "\n\n"@
        }) + "--- Page "@ + text::decimal(n + 1) + " ---\n\n"@ + t@,
        export::text_pages(pages, 0).len() == 0,
{
    reveal_strlit("");
    if let Ok(t) = pages[n as int] {
        let head = if n == 0 {
            ""@
        } else {
            "\n\n"@
        };
        assert(export::page_block(n as int, pages[n as int]) =~= head + "--- Page "@
            + text::decimal(n + 1) + " ---\n\n"@ + t@);
        assert(export::text_pages(pages, n + 1) =~= export::text_pages(pages, n) + head
            + "--- Page "@ + text::decimal(n + 1) + " ---\n\n"@ + t@);
    }
}

/// The name of a file without its last extension; one that begins with its
/// only dot keeps it.
pub proof fn lemma_stem(stem: Seq<char>, ext: Seq<char>)
    requires
        stem.len() > 0,
        forall|i: int| 0 <= i < ext.len() ==> #[trigger] ext[i] != '.',
    ensures
        export::stem(stem + seq!['.'] + ext) == stem,
        export::stem(seq!['.'] + ext) == seq!['.'] + ext,
{
    crate::explorer_laws::lemma_extension_is(stem, ext);
    let s = stem + seq!['.'] + ext;
    assert(s.take(stem.len() as int) =~= stem);
    let none = Seq::<char>::empty();
    crate::explorer_laws::lemma_extension_is(none, ext);
    assert(none + seq!['.'] + ext =~= seq!['.'] + ext);
}

/// A picture is copied by these programs with these arguments.
pub proof fn lemma_clipboard_tools()
    ensures
        ClipboardTool::WlCopy.words() == ("wl-copy"@, seq!["--type"@, "image/png"@]),
        ClipboardTool::Xclip.words() == (
            "xclip"@,
            seq!["-selection"@, "clipboard"@, "-t"@, "image/png"@],
        ),
{
}

/// A printed outline has a line for each node, right before the lines of what
/// is below it, which stand one level deeper.
pub proof fn lemma_outline_printed(item: Outline, depth: int)
    requires
        0 <= depth < usize::MAX,
    ensures
        ({
            let lines = headless::outline_lines(seq![item], depth);
            &&& lines.len() > 0
            &&& lines[0] == headless::node_text(item, depth)
            &&& lines.skip(1) == headless::outline_lines(item.children@, depth + 1)
        }),
{
    let items = seq![item];
    assert(items.subrange(0, 0) =~= Seq::<Outline>::empty());
    reveal_with_fuel(headless::outline_lines, 2);
    let below = headless::outline_lines(item.children@, depth + 1);
    let lines = headless::outline_lines(items, depth);
    assert(lines =~= seq![headless::node_text(item, depth)] + below);
    assert(lines.skip(1) =~= below);
}

/// The printed lines of two outlines one after the other are those of both.
pub proof fn lemma_printed_outlines_join(a: Seq<Outline>, b: Seq<Outline>, depth: int)
    ensures
        headless::outline_lines(a + b, depth) == headless::outline_lines(a, depth)
            + headless::outline_lines(b, depth),
    decreases b.len(),
{
    if b.len() == 0 {
        assert(a + b =~= a);
        assert(headless::outline_lines(a, depth) + Seq::<Seq<char>>::empty()
            =~= headless::outline_lines(a, depth));
    } else {
        let s = a + b;
        let less = b.subrange(0, b.len() - 1);
        lemma_printed_outlines_join(a, less, depth);
        assert(s.subrange(0, s.len() - 1) =~= a + less);
        assert(s[s.len() - 1] == b[b.len() - 1]);
        assert(headless::outline_lines(s, depth) =~= headless::outline_lines(a, depth)
            + headless::outline_lines(b, depth));
    }
}

} // verus!
