//! The choices that small functions make, said of their results.
use vstd::prelude::*;

use crate::capabilities;
use crate::document::{PageMetrics, PageSize};
use crate::export::{self, ClipboardTool};
use crate::painting::{self, Route};
use crate::session::Session;
use crate::sixel_write;
use crate::text;
use crate::timings::FrameTiming;
use crate::tmux;
use crate::viewport::{Rotation, ZoomMode};
use crate::workspace::Workspace;

verus! {

/// Under Wayland its own program is tried first, else that of X; the other one
/// comes second.
pub proof fn lemma_clipboard_order(wayland: bool, v: Vec<ClipboardTool>)
    requires
        call_ensures(export::clipboard_tools, (wayland,), v),
    ensures
        v@.len() == 2,
        wayland ==> v@[0] == ClipboardTool::WlCopy && v@[1] == ClipboardTool::Xclip,
        !wayland ==> v@[0] == ClipboardTool::Xclip && v@[1] == ClipboardTool::WlCopy,
{
}

/// The editor that was asked for comes before the visual one, and both before
/// those that are found; of these vim comes before vi and vi before nano.
pub proof fn lemma_editor(
    editor: Option<String>,
    visual: Option<String>,
    found: (bool, bool, bool),
    s: String,
)
    requires
        call_ensures(export::pick_editor, (editor, visual, found), s),
    ensures
        editor matches Some(e) ==> s@ == e@,
        editor is None && visual is Some ==> s@ == visual->0@,
        editor is None && visual is None && found.0 ==> s@ == "vim"@,
        editor is None && visual is None && !found.0 && found.1 ==> s@ == "vi"@,
        editor is None && visual is None && !found.0 && !found.1 && found.2 ==> s@ == "nano"@,
        editor is None && visual is None && !found.0 && !found.1 && !found.2 ==> s@ == "vi"@,
{
}

/// A quarter turn changes width and height round; a half turn does not.
pub proof fn lemma_turned_size(size: PageSize, r: Rotation, now: PageSize)
    requires
        call_ensures(Rotation::apply_to_size, (r, size), now),
    ensures
        r == Rotation::R0 || r == Rotation::R180 ==> now == size,
        r == Rotation::R90 || r == Rotation::R270 ==> now.width == size.height && now.height
            == size.width,
{
}

/// A quarter clockwise and a quarter the other way take each other back, and
/// four quarters one way are none.
pub proof fn lemma_quarter_turns(r: Rotation, cw: Rotation, ccw: Rotation)
    requires
        call_ensures(Rotation::cw, (r,), cw),
        call_ensures(Rotation::ccw, (r,), ccw),
    ensures
        r == Rotation::R0 ==> cw == Rotation::R90 && ccw == Rotation::R270,
        r == Rotation::R90 ==> cw == Rotation::R180 && ccw == Rotation::R0,
        r == Rotation::R180 ==> cw == Rotation::R270 && ccw == Rotation::R90,
        r == Rotation::R270 ==> cw == Rotation::R0 && ccw == Rotation::R180,
{
}

/// Rendering took no time where the frame was there or the page was; else what
/// composing and encoding leave of the whole, and never less than none.
pub proof fn lemma_render_time(
    route: Route,
    hot: bool,
    total: u64,
    compose: u64,
    encode: u64,
    t: u64,
)
    requires
        call_ensures(painting::render_time, (route, hot, total, compose, encode), t),
    ensures
        hot ==> t == 0,
        route == Route::Cached && compose == 0 ==> t == 0,
        !hot && !(route == Route::Cached && compose == 0) && compose + encode <= total ==> t
            + compose + encode == total,
        compose + encode > total ==> t == 0,
{
}

/// The stages of a frame are kept apart, and what they do not account for is
/// left over.
pub proof fn lemma_frame_stages(
    total: u64,
    render: u64,
    compose: u64,
    encode: u64,
    write: u64,
    t: FrameTiming,
)
    requires
        call_ensures(painting::frame_timing, (total, render, compose, encode, write), t),
        render + compose + encode + write <= total,
    ensures
        t.render == render && t.compose == compose && t.encode == encode && t.write == write,
        t.render + t.compose + t.encode + t.write + t.other == total,
{
}

/// As many frames are encoded ahead on either side as the frame cache can hold
/// besides the frame itself; none without the cache or a document.
pub proof fn lemma_refill_radius<D: PageMetrics>(
    ws: Workspace<D>,
    on: bool,
    room: usize,
    r: Option<usize>,
)
    requires
        call_ensures(Workspace::<D>::refill_radius, (&ws, on, room), r),
    ensures
        !on || room <= 2 ==> r is None,
        r matches Some(n) ==> n >= 1 && 2 * n + 1 <= room < 2 * n + 3,
{
}

/// The wait for input is shorter while a message is to go.
pub proof fn lemma_wait(s: Session, ms: u64)
    requires
        call_ensures(Session::poll_millis, (&s,), ms),
    ensures
        s@.until is Some ==> ms == 200,
        s@.until is None ==> ms == 1000,
{
}

/// A terminal that lists 4 among its attributes draws sixel pictures: the
/// number stands alone between separators, wherever in the list.
pub proof fn lemma_sixel_named(reply: Seq<char>, k: int)
    requires
        0 <= k < text::split(capabilities::attributes(reply), ';').len(),
        text::split(capabilities::attributes(reply), ';')[k] == seq!['4'],
    ensures
        capabilities::names_sixel(reply),
{
    let part = seq!['4'];
    assert(part[0] == '4' && part.last() == '4');
    assert(text::trimmed(part) == part);
    assert(capabilities::is_sixel(part));
}

/// A terminal none of whose attributes ends in a 4 after its first digit draws
/// no sixel pictures: 14 or 64 do not count.
pub proof fn lemma_sixel_not_named(reply: Seq<char>)
    requires
        forall|k: int|
            0 <= k < text::split(capabilities::attributes(reply), ';').len()
                ==> capabilities::from_digit(
                text::trimmed(#[trigger] text::split(capabilities::attributes(reply), ';')[k]),
            ) != seq!['4'],
    ensures
        !capabilities::names_sixel(reply),
{
}

/// Outside tmux a sequence goes out as it is; inside it stands between the
/// marks of a passthrough with its escape characters doubled.
pub proof fn lemma_passthrough(payload: Seq<char>)
    requires
        forall|i: int| 0 <= i < payload.len() ==> #[trigger] payload[i] != '\u{1b}',
    ensures
        tmux::wrapped(payload, false) == payload,
        tmux::wrapped(payload, true) == seq!['\u{1b}', 'P', 't', 'm', 'u', 'x', ';'] + payload
            + seq!['\u{1b}', '\\'],
        tmux::doubled(seq!['\u{1b}']) == seq!['\u{1b}', '\u{1b}'],
{
    lemma_nothing_to_double(payload);
    reveal_strlit("\x1bPtmux;");
    reveal_strlit("\x1b\\");
    assert("\x1bPtmux;"@ =~= seq!['\u{1b}', 'P', 't', 'm', 'u', 'x', ';']);
    assert("\x1b\\"@ =~= seq!['\u{1b}', '\\']);
    reveal_with_fuel(tmux::doubled, 2);
    let e = seq!['\u{1b}'];
    assert(e.drop_last() =~= Seq::<char>::empty());
    assert(tmux::doubled(e) =~= seq!['\u{1b}', '\u{1b}']);
}

proof fn lemma_nothing_to_double(s: Seq<char>)
    requires
        forall|i: int| 0 <= i < s.len() ==> #[trigger] s[i] != '\u{1b}',
    ensures
        tmux::doubled(s) == s,
    decreases s.len(),
{
    if s.len() > 0 {
        let less = s.drop_last();
        assert forall|i: int| 0 <= i < less.len() implies #[trigger] less[i] != '\u{1b}' by {
            assert(less[i] == s[i]);
        }
        lemma_nothing_to_double(less);
        assert(s[s.len() - 1] != '\u{1b}');
        assert(less.push(s.last()) =~= s);
    }
}

/// A picture is accepted where it has an extent and four bytes for each pixel.
pub proof fn lemma_picture_accepted(
    len: usize,
    width: i32,
    height: i32,
    r: Result<(), sixel_write::SixelError>,
)
    requires
        call_ensures(sixel_write::check_input, (len, width, height), r),
    ensures
        r is Ok <==> width > 0 && height > 0 && len == 4 * (width * height),
{
}

/// The zooms are named in the status bar as on the command line.
pub proof fn lemma_zoom_labels(percent: Seq<char>, value: crate::number::Real32)
    ensures
        ZoomMode::FitWidth.spec_label(percent) == "fit-w"@,
        ZoomMode::FitHeight.spec_label(percent) == "fit-h"@,
        ZoomMode::FitPage.spec_label(percent) == "fit-p"@,
        ZoomMode::Custom(value).spec_label(percent) == percent + seq!['%'],
{
    reveal_strlit("%");
    assert("%"@ =~= seq!['%']);
}

} // verus!
