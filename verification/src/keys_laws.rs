//! What each key is for.
use vstd::prelude::*;

use crate::document::PageMetrics;
use crate::keys::{self, ArrowDir, Key, KeyOutcome, KeyParserState, Leader, PageDir, WindowOp};
use crate::navigator::{self, Action};
use crate::navigator_laws;
use crate::number::Real32;
use crate::viewport::{Viewport, ZoomMode};

verus! {

/// No chord is open; a count may be.
pub open spec fn waiting(count: Option<usize>) -> KeyParserState {
    KeyParserState { count, leader: Leader::Idle }
}

/// What one key does after a count, which it uses up.
pub open spec fn does(count: Option<usize>, key: Key, out: KeyOutcome) -> bool {
    keys::fed(waiting(count), key) == (waiting(None), out)
}

/// A key that takes an action as often as the count says.
pub open spec fn repeats(count: Option<usize>, key: Key, action: Action) -> bool {
    does(
        count,
        key,
        KeyOutcome::Action {
            action,
            count: match count {
                Some(n) => if n == 0 {
                    1
                } else {
                    n
                },
                None => 1,
            },
        },
    )
}

/// A key that takes an action once, whatever the count.
pub open spec fn acts(count: Option<usize>, key: Key, action: Action) -> bool {
    does(count, key, KeyOutcome::Action { action, count: 1 })
}

/// The keys that scroll and turn pages, with or without a count.
pub proof fn lemma_motion_keys(count: Option<usize>)
    ensures
        repeats(count, Key::Char('j'), Action::NextScreen),
        repeats(count, Key::Char('k'), Action::PrevScreen),
        repeats(count, Key::Char('h'), Action::ScrollLeft),
        repeats(count, Key::Char('l'), Action::ScrollRight),
        repeats(count, Key::Down, Action::FineScrollDown),
        repeats(count, Key::Up, Action::FineScrollUp),
        repeats(count, Key::Left, Action::ScrollLeft),
        repeats(count, Key::Right, Action::ScrollRight),
        repeats(count, Key::Ctrl('d'), Action::HalfScreenDown),
        repeats(count, Key::Ctrl('u'), Action::HalfScreenUp),
        repeats(count, Key::Ctrl('f'), Action::NextPage),
        repeats(count, Key::Ctrl('b'), Action::PrevPage),
        repeats(count, Key::PageDown, Action::NextPage),
        repeats(count, Key::PageUp, Action::PrevPage),
        acts(count, Key::Char('H'), Action::PageTop),
        acts(count, Key::Char('M'), Action::PageMiddle),
        acts(count, Key::Char('L'), Action::PageBottom),
        acts(count, Key::Home, Action::FirstPage),
{
}

/// The keys that change how the page looks: larger and smaller by a factor of
/// 1.2, the three fits, and a quarter turn each way.
pub proof fn lemma_look_keys(count: Option<usize>)
    ensures
        acts(count, Key::Char('+'), Action::ZoomBy(Real32 { bits: 0x3F99_999A })),
        acts(count, Key::Char('='), Action::ZoomBy(Real32 { bits: 0x3F99_999A })),
        acts(count, Key::Char('-'), Action::ZoomBy(Real32 { bits: 0x3F55_5555 })),
        acts(count, Key::Char('w'), Action::SetZoom(ZoomMode::FitWidth)),
        acts(count, Key::Char('e'), Action::SetZoom(ZoomMode::FitHeight)),
        acts(count, Key::Char('f'), Action::SetZoom(ZoomMode::FitPage)),
        acts(count, Key::Char('r'), Action::RotateCw),
        acts(count, Key::Char('R'), Action::RotateCcw),
{
}

/// `G` and End go to the page that the count names, counted from 1, and to the
/// last page without a count.
pub proof fn lemma_page_keys(n: usize)
    ensures
        n >= 1 ==> acts(Some(n), Key::Char('G'), Action::GotoPage((n - 1) as usize)),
        n >= 1 ==> acts(Some(n), Key::End, Action::GotoPage((n - 1) as usize)),
        acts(Some(0), Key::Char('G'), Action::GotoPage(0)),
        acts(None, Key::Char('G'), Action::LastPage),
        acts(None, Key::End, Action::LastPage),
{
}

/// The keys that open prompts and lists, step through hits, go back and forth
/// between places, and quit.
pub proof fn lemma_other_keys(count: Option<usize>)
    ensures
        does(count, Key::Char(':'), KeyOutcome::OpenCommand),
        does(count, Key::Char('/'), KeyOutcome::OpenSearch { forward: true }),
        does(count, Key::Char('?'), KeyOutcome::OpenSearch { forward: false }),
        does(count, Key::Char('n'), KeyOutcome::SearchStep { forward: true }),
        does(count, Key::Char('N'), KeyOutcome::SearchStep { forward: false }),
        does(count, Key::Char('q'), KeyOutcome::Quit),
        does(count, Key::Char('t'), KeyOutcome::ToggleToc),
        does(count, Key::Ctrl('o'), KeyOutcome::JumpBack),
        does(count, Key::Ctrl('i'), KeyOutcome::JumpForward),
        does(count, Key::Ctrl('^'), KeyOutcome::Window(WindowOp::AlternateBuffer)),
        does(count, Key::Ctrl('6'), KeyOutcome::Window(WindowOp::AlternateBuffer)),
{
}

/// Keys with modifiers: Alt and an arrow moves the focus that way; with Shift
/// too, the window grows or shrinks by the count, two without one; Ctrl and a
/// page key goes to the tab on that side, and with Shift too it moves the tab
/// there.
pub proof fn lemma_modified_keys(count: Option<usize>, n: usize)
    requires
        1 <= n <= i32::MAX,
    ensures
        does(count, Key::AltArrow(ArrowDir::Left), KeyOutcome::Window(WindowOp::FocusLeft)),
        does(count, Key::AltArrow(ArrowDir::Right), KeyOutcome::Window(WindowOp::FocusRight)),
        does(count, Key::AltArrow(ArrowDir::Up), KeyOutcome::Window(WindowOp::FocusUp)),
        does(count, Key::AltArrow(ArrowDir::Down), KeyOutcome::Window(WindowOp::FocusDown)),
        does(
            Some(n),
            Key::ShiftAltArrow(ArrowDir::Right),
            KeyOutcome::Window(WindowOp::ResizeHorizontal(n as i32)),
        ),
        does(
            Some(n),
            Key::ShiftAltArrow(ArrowDir::Left),
            KeyOutcome::Window(WindowOp::ResizeHorizontal((-n) as i32)),
        ),
        does(
            Some(n),
            Key::ShiftAltArrow(ArrowDir::Down),
            KeyOutcome::Window(WindowOp::ResizeVertical(n as i32)),
        ),
        does(
            Some(n),
            Key::ShiftAltArrow(ArrowDir::Up),
            KeyOutcome::Window(WindowOp::ResizeVertical((-n) as i32)),
        ),
        does(
            None,
            Key::ShiftAltArrow(ArrowDir::Right),
            KeyOutcome::Window(WindowOp::ResizeHorizontal(2)),
        ),
        does(
            None,
            Key::ShiftAltArrow(ArrowDir::Left),
            KeyOutcome::Window(WindowOp::ResizeHorizontal((-2int) as i32)),
        ),
        does(
            None,
            Key::ShiftAltArrow(ArrowDir::Down),
            KeyOutcome::Window(WindowOp::ResizeVertical(2)),
        ),
        does(
            None,
            Key::ShiftAltArrow(ArrowDir::Up),
            KeyOutcome::Window(WindowOp::ResizeVertical((-2int) as i32)),
        ),
        does(count, Key::CtrlPage(PageDir::Up), KeyOutcome::Window(WindowOp::PrevTab(1))),
        does(count, Key::CtrlPage(PageDir::Down), KeyOutcome::Window(WindowOp::NextTab(1))),
        does(count, Key::CtrlShiftPage(PageDir::Up), KeyOutcome::Window(WindowOp::MoveTabLeft)),
        does(count, Key::CtrlShiftPage(PageDir::Down), KeyOutcome::Window(WindowOp::MoveTabRight)),
{
}

/// What two keys do one after the other, after a count, which they use up.
pub open spec fn chord(count: Option<usize>, first: Key, second: Key, out: KeyOutcome) -> bool {
    let (s, pending) = keys::fed(waiting(count), first);
    pending == KeyOutcome::Pending && keys::fed(s, second) == (waiting(None), out)
}

/// The chords that `g` opens: the first page or the counted one, and the tabs
/// as far on or back as the count says.
pub proof fn lemma_g_chords(n: usize)
    ensures
        chord(
            None,
            Key::Char('g'),
            Key::Char('g'),
            KeyOutcome::Action { action: Action::GotoPage(0), count: 1 },
        ),
        n >= 1 ==> chord(
            Some(n),
            Key::Char('g'),
            Key::Char('g'),
            KeyOutcome::Action { action: Action::GotoPage((n - 1) as usize), count: 1 },
        ),
        chord(None, Key::Char('g'), Key::Char('t'), KeyOutcome::Window(WindowOp::NextTab(1))),
        chord(None, Key::Char('g'), Key::Char('T'), KeyOutcome::Window(WindowOp::PrevTab(1))),
        chord(Some(n), Key::Char('g'), Key::Char('t'), KeyOutcome::Window(WindowOp::NextTab(n))),
        chord(Some(n), Key::Char('g'), Key::Char('T'), KeyOutcome::Window(WindowOp::PrevTab(n))),
{
}

/// `Ctrl-w` and a letter, with or without Ctrl held.
pub open spec fn ctrl_w(count: Option<usize>, c: char, op: WindowOp) -> bool {
    &&& chord(count, Key::Ctrl('w'), Key::Char(c), KeyOutcome::Window(op))
    &&& chord(count, Key::Ctrl('w'), Key::Ctrl(c), KeyOutcome::Window(op))
}

/// The chords that `Ctrl-w` opens: the focus goes the way of the letter, the
/// window is split, closed or left alone, all get equal room, or this one
/// grows or shrinks by the count.
pub proof fn lemma_window_chords(count: Option<usize>, n: usize)
    requires
        1 <= n <= i32::MAX,
    ensures
        ctrl_w(count, 'h', WindowOp::FocusLeft),
        ctrl_w(count, 'j', WindowOp::FocusDown),
        ctrl_w(count, 'k', WindowOp::FocusUp),
        ctrl_w(count, 'l', WindowOp::FocusRight),
        ctrl_w(count, 'w', WindowOp::FocusCycle { reverse: false }),
        ctrl_w(count, 'W', WindowOp::FocusCycle { reverse: true }),
        ctrl_w(count, 's', WindowOp::SplitHorizontal),
        ctrl_w(count, 'v', WindowOp::SplitVertical),
        ctrl_w(count, 'c', WindowOp::Close),
        ctrl_w(count, 'o', WindowOp::Only),
        ctrl_w(count, '=', WindowOp::Equalize),
        ctrl_w(Some(n), '+', WindowOp::ResizeVertical(n as i32)),
        ctrl_w(Some(n), '-', WindowOp::ResizeVertical((-n) as i32)),
        ctrl_w(Some(n), '>', WindowOp::ResizeHorizontal(n as i32)),
        ctrl_w(Some(n), '<', WindowOp::ResizeHorizontal((-n) as i32)),
        ctrl_w(None, '+', WindowOp::ResizeVertical(1)),
        ctrl_w(None, '-', WindowOp::ResizeVertical((-1int) as i32)),
        ctrl_w(None, '>', WindowOp::ResizeHorizontal(1)),
        ctrl_w(None, '<', WindowOp::ResizeHorizontal((-1int) as i32)),
{
}

/// `m` and a letter sets that mark; a quote or a backquote and a letter goes
/// to it. Anything but a letter drops the chord.
pub proof fn lemma_mark_chords(count: Option<usize>, c: char)
    ensures
        'a' <= c <= 'z' || 'A' <= c <= 'Z' ==> {
            &&& chord(count, Key::Char('m'), Key::Char(c), KeyOutcome::SetMark(c))
            &&& chord(count, Key::Char('\''), Key::Char(c), KeyOutcome::JumpMark(c))
            &&& chord(count, Key::Char('`'), Key::Char(c), KeyOutcome::JumpMark(c))
        },
        !('a' <= c <= 'z' || 'A' <= c <= 'Z') ==> {
            &&& chord(count, Key::Char('m'), Key::Char(c), KeyOutcome::Pending)
            &&& chord(count, Key::Char('\''), Key::Char(c), KeyOutcome::Pending)
        },
{
}

/// A digit goes to the end of the count; a zero alone starts none.
pub proof fn lemma_digits(n: usize, d: u32)
    requires
        d <= 9,
        n * 10 + d <= usize::MAX,
    ensures
        keys::fed(waiting(Some(n)), Key::Char((48 + d) as char)) == (
            waiting(Some((n * 10 + d) as usize)),
            KeyOutcome::Pending,
        ),
        d > 0 ==> keys::fed(waiting(None), Key::Char((48 + d) as char)) == (
            waiting(Some(d as usize)),
            KeyOutcome::Pending,
        ),
        keys::fed(waiting(None), Key::Char('0')) == (waiting(None), KeyOutcome::Pending),
{
}

/// Esc drops what is pending; with nothing pending it cancels.
pub proof fn lemma_esc(s: KeyParserState)
    ensures
        keys::fed(s, Key::Esc).0 == waiting(None),
        s == waiting(None) ==> keys::fed(s, Key::Esc).1 == KeyOutcome::Cancel,
        s != waiting(None) ==> keys::fed(s, Key::Esc).1 == KeyOutcome::Pending,
{
}

/// The action of a key pressed with nothing pending.
pub open spec fn action_of(key: Key) -> Action {
    keys::fed(waiting(None), key).1->action
}

/// Where a key takes the view.
pub open spec fn led<D: PageMetrics>(doc: &D, v: Viewport, key: Key, product: Real32) -> Viewport {
    navigator::moved(doc, v, action_of(key), product).0
}

/// In the middle of a page that is larger than the screen both ways: `j`, the
/// down arrow and `Ctrl-d` go down, `k`, the up arrow and `Ctrl-u` go up, `l`
/// goes right and `h` goes left, and each undoes its counterpart where that
/// stopped short of an edge. `Ctrl-f` turns a page on and `Ctrl-b` back.
pub proof fn lemma_keys_go_their_way<D: PageMetrics>(
    doc: &D,
    v: Viewport,
    w: int,
    h: int,
    product: Real32,
)
    requires
        navigator_laws::fills(doc, v, w, h),
        navigator_laws::shown(v, w, h),
        v.screen_w >= 2,
        v.screen_h >= 2,
        0 < v.x_off < w - v.screen_w,
        0 < v.y_off,
        v.y_off + v.screen_h < h - v.screen_h,
        v.screen_h < v.y_off,
    ensures
        led(doc, v, Key::Char('j'), product).y_off > v.y_off,
        led(doc, v, Key::Char('k'), product).y_off < v.y_off,
        led(doc, v, Key::Down, product).y_off > v.y_off,
        led(doc, v, Key::Up, product).y_off < v.y_off,
        led(doc, v, Key::Ctrl('d'), product).y_off > v.y_off,
        led(doc, v, Key::Ctrl('u'), product).y_off < v.y_off,
        led(doc, v, Key::Char('l'), product).x_off > v.x_off,
        led(doc, v, Key::Char('h'), product).x_off < v.x_off,
        led(doc, led(doc, v, Key::Char('j'), product), Key::Char('k'), product) == v,
        led(doc, led(doc, v, Key::Down, product), Key::Up, product) == v,
        led(doc, led(doc, v, Key::Ctrl('d'), product), Key::Ctrl('u'), product) == v,
        led(doc, v, Key::Char('L'), product).y_off > led(doc, v, Key::Char('M'), product).y_off,
        led(doc, v, Key::Char('M'), product).y_off > led(doc, v, Key::Char('H'), product).y_off,
        v.page_idx + 1 < doc.pages() ==> led(doc, v, Key::Ctrl('f'), product).page_idx == v.page_idx
            + 1,
        v.page_idx > 0 ==> led(doc, v, Key::Ctrl('b'), product).page_idx == v.page_idx - 1,
        led(doc, v, Key::Home, product).page_idx == 0,
        led(doc, v, Key::Char('G'), product).page_idx == doc.pages() - 1,
        led(doc, v, Key::Char('r'), product).rotation == navigator_laws::clockwise(v.rotation),
        navigator_laws::clockwise(led(doc, v, Key::Char('R'), product).rotation) == v.rotation,
{
    lemma_motion_keys(None);
    lemma_look_keys(None);
    lemma_page_keys(1);
    navigator_laws::lemma_steps(doc, v, w, h, false, product);
    navigator_laws::lemma_steps(doc, v, w, h, true, product);
    navigator_laws::lemma_half_screens(doc, v, w, h, product);
    navigator_laws::lemma_scroll_sideways(doc, v, w, h, product);
    navigator_laws::lemma_anchors(doc, v, w, h, product);
    navigator_laws::lemma_pages(doc, v, 0, product);
    navigator_laws::lemma_looks(
        doc,
        v,
        ZoomMode::FitWidth,
        v.rotation,
        v.screen_w,
        v.screen_h,
        product,
    );
    navigator_laws::lemma_step_and_back(
        doc,
        v,
        w,
        h,
        Action::NextScreen,
        Action::PrevScreen,
        product,
    );
    navigator_laws::lemma_step_and_back(
        doc,
        v,
        w,
        h,
        Action::FineScrollDown,
        Action::FineScrollUp,
        product,
    );
    navigator_laws::lemma_step_and_back(
        doc,
        v,
        w,
        h,
        Action::HalfScreenDown,
        Action::HalfScreenUp,
        product,
    );
}

/// While a chord is open the status bar shows the count and the key that opened
/// it; at rest it shows nothing.
pub proof fn lemma_hints(n: usize)
    ensures
        waiting(None).spec_hint().len() == 0,
        waiting(Some(n)).spec_hint() == crate::text::decimal(n as nat),
        (KeyParserState { count: None, leader: Leader::G }).spec_hint() == seq!['g'],
        (KeyParserState { count: None, leader: Leader::M }).spec_hint() == seq!['m'],
        (KeyParserState { count: None, leader: Leader::Apostrophe }).spec_hint() == seq!['\''],
        (KeyParserState { count: None, leader: Leader::CtrlW }).spec_hint() == seq!['^', 'W'],
        (KeyParserState { count: Some(n), leader: Leader::G }).spec_hint() == crate::text::decimal(
            n as nat,
        ).push('g'),
{
    reveal_strlit("^W");
    assert("^W"@ =~= seq!['^', 'W']);
    let d = crate::text::decimal(n as nat);
    let none = Seq::<char>::empty();
    assert(d + none =~= d);
    assert(none + seq!['g'] =~= seq!['g']);
    assert(none + seq!['m'] =~= seq!['m']);
    assert(none + seq!['\''] =~= seq!['\'']);
    assert(none + "^W"@ =~= seq!['^', 'W']);
    assert(d + seq!['g'] =~= d.push('g'));
}

} // verus!
