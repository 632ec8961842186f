//! What each key press does in each mode.
use vstd::prelude::*;

use crate::docstate::Bookmark;
use crate::keys::{ArrowDir, Key, KeyOutcome, KeyParserState, Leader, PageDir, WindowOp};
use crate::lists::{self, TocLine};
use crate::navigator::Action;
use crate::palette::{self, Offer};
use crate::session::{
    self, Browse, KeyCode, KeyPress, ModeView, RequestView, SessionView,
};
use crate::text;

verus! {

/// A key without any modifier.
pub open spec fn bare(code: KeyCode) -> KeyPress {
    KeyPress { code, ctrl: false, alt: false, shift: false, more: false }
}

/// A key with Control.
pub open spec fn control(code: KeyCode) -> KeyPress {
    KeyPress { ctrl: true, ..bare(code) }
}

/// A key with Alt.
pub open spec fn alt(code: KeyCode) -> KeyPress {
    KeyPress { alt: true, ..bare(code) }
}

/// The same key press with Shift.
pub open spec fn shifted(k: KeyPress) -> KeyPress {
    KeyPress { shift: true, ..k }
}

/// The key that each press stands for: letters with and without Control, keys
/// with a name, and arrows and page keys with the modifiers that make other
/// keys of them.
pub proof fn lemma_presses(c: char)
    ensures
        session::key_of(bare(KeyCode::Char(c))) == Some(Key::Char(c)),
        session::key_of(shifted(bare(KeyCode::Char(c)))) == Some(Key::Char(c)),
        session::key_of(control(KeyCode::Char(c))) == Some(Key::Ctrl(c)),
        session::key_of(bare(KeyCode::Left)) == Some(Key::Left),
        session::key_of(bare(KeyCode::Right)) == Some(Key::Right),
        session::key_of(bare(KeyCode::Up)) == Some(Key::Up),
        session::key_of(bare(KeyCode::Down)) == Some(Key::Down),
        session::key_of(alt(KeyCode::Left)) == Some(Key::AltArrow(ArrowDir::Left)),
        session::key_of(alt(KeyCode::Right)) == Some(Key::AltArrow(ArrowDir::Right)),
        session::key_of(alt(KeyCode::Up)) == Some(Key::AltArrow(ArrowDir::Up)),
        session::key_of(alt(KeyCode::Down)) == Some(Key::AltArrow(ArrowDir::Down)),
        session::key_of(shifted(alt(KeyCode::Left))) == Some(Key::ShiftAltArrow(ArrowDir::Left)),
        session::key_of(shifted(alt(KeyCode::Right))) == Some(Key::ShiftAltArrow(ArrowDir::Right)),
        session::key_of(shifted(alt(KeyCode::Up))) == Some(Key::ShiftAltArrow(ArrowDir::Up)),
        session::key_of(shifted(alt(KeyCode::Down))) == Some(Key::ShiftAltArrow(ArrowDir::Down)),
        session::key_of(bare(KeyCode::PageUp)) == Some(Key::PageUp),
        session::key_of(bare(KeyCode::PageDown)) == Some(Key::PageDown),
        session::key_of(control(KeyCode::PageUp)) == Some(Key::CtrlPage(PageDir::Up)),
        session::key_of(control(KeyCode::PageDown)) == Some(Key::CtrlPage(PageDir::Down)),
        session::key_of(shifted(control(KeyCode::PageUp))) == Some(Key::CtrlShiftPage(PageDir::Up)),
        session::key_of(shifted(control(KeyCode::PageDown))) == Some(
            Key::CtrlShiftPage(PageDir::Down),
        ),
        session::key_of(bare(KeyCode::Esc)) == Some(Key::Esc),
        session::key_of(bare(KeyCode::Enter)) == Some(Key::Enter),
        session::key_of(bare(KeyCode::Tab)) == Some(Key::Tab),
        session::key_of(bare(KeyCode::BackTab)) == Some(Key::BackTab),
        session::key_of(bare(KeyCode::Backspace)) == Some(Key::Backspace),
        session::key_of(bare(KeyCode::Home)) == Some(Key::Home),
        session::key_of(bare(KeyCode::End)) == Some(Key::End),
        session::key_of(bare(KeyCode::Unknown)) is None,
{
}

/// What a key press asks for.
pub open spec fn asks(s: SessionView, k: KeyPress, directory: bool, rows: Seq<Offer>) -> RequestView {
    session::pressed(s, k, directory, rows).1
}

/// What a key press leaves.
pub open spec fn leaves(s: SessionView, k: KeyPress, directory: bool, rows: Seq<Offer>) -> SessionView {
    session::pressed(s, k, directory, rows).0
}

/// No chord and no count is open.
pub open spec fn at_rest(s: SessionView) -> bool {
    s.mode == ModeView::Normal && s.key_state == (KeyParserState {
        count: None,
        leader: Leader::Idle,
    })
}

/// In a directory j and k, the arrows, gg and G move the selection; Enter, l
/// and the right arrow open what is selected; h, u, the minus sign, Backspace
/// and the left arrow lead up.
pub proof fn lemma_directory_keys(s: SessionView, rows: Seq<Offer>)
    requires
        at_rest(s),
    ensures
        asks(s, bare(KeyCode::Char('j')), true, rows) == RequestView::Browse(Browse::Down),
        asks(s, bare(KeyCode::Down), true, rows) == RequestView::Browse(Browse::Down),
        asks(s, bare(KeyCode::Char('k')), true, rows) == RequestView::Browse(Browse::Up),
        asks(s, bare(KeyCode::Up), true, rows) == RequestView::Browse(Browse::Up),
        asks(s, bare(KeyCode::Char('G')), true, rows) == RequestView::Browse(Browse::Last),
        asks(s, bare(KeyCode::Enter), true, rows) == RequestView::Browse(Browse::Activate),
        asks(s, bare(KeyCode::Char('l')), true, rows) == RequestView::Browse(Browse::Activate),
        asks(s, bare(KeyCode::Right), true, rows) == RequestView::Browse(Browse::Activate),
        asks(s, bare(KeyCode::Backspace), true, rows) == RequestView::Browse(Browse::Parent),
        asks(s, bare(KeyCode::Left), true, rows) == RequestView::Browse(Browse::Parent),
        asks(s, bare(KeyCode::Char('h')), true, rows) == RequestView::Browse(Browse::Parent),
        asks(s, bare(KeyCode::Char('u')), true, rows) == RequestView::Browse(Browse::Parent),
        asks(s, bare(KeyCode::Char('-')), true, rows) == RequestView::Browse(Browse::Parent),
        ({
            let once = leaves(s, bare(KeyCode::Char('g')), true, rows);
            &&& asks(s, bare(KeyCode::Char('g')), true, rows) == RequestView::Nothing
            &&& asks(once, bare(KeyCode::Char('g')), true, rows) == RequestView::Browse(
                Browse::First,
            )
            &&& at_rest(leaves(once, bare(KeyCode::Char('g')), true, rows))
        }),
{
}

/// Control-c quits from normal mode, and leaves every other mode.
pub proof fn lemma_interrupt(s: SessionView, directory: bool, rows: Seq<Offer>)
    requires
        s.valid(),
        !(s.mode is Help),
    ensures
        s.mode == ModeView::Normal ==> asks(s, control(KeyCode::Char('c')), directory, rows)
            == RequestView::Quit,
        s.mode != ModeView::Normal ==> {
            &&& asks(s, control(KeyCode::Char('c')), directory, rows) == RequestView::Nothing
            &&& leaves(s, control(KeyCode::Char('c')), directory, rows).mode == ModeView::Normal
        },
{
}

/// What comes of what the keys mean: the prompts open empty, and everything
/// else is asked for as it was meant.
pub proof fn lemma_outcomes(s: SessionView, action: Action, count: usize, op: WindowOp, c: char)
    ensures
        session::taken(s, KeyOutcome::OpenCommand) == (
            SessionView {
                mode: ModeView::Command { input: Seq::empty(), chosen: None },
                ..s
            },
            RequestView::Nothing,
        ),
        session::taken(s, KeyOutcome::OpenSearch { forward: true }) == (
            SessionView { mode: ModeView::Search { input: Seq::empty(), forward: true }, ..s },
            RequestView::Nothing,
        ),
        session::taken(s, KeyOutcome::OpenSearch { forward: false }) == (
            SessionView { mode: ModeView::Search { input: Seq::empty(), forward: false }, ..s },
            RequestView::Nothing,
        ),
        session::taken(s, KeyOutcome::ToggleHelp).0.mode == ModeView::Help,
        session::taken(s, KeyOutcome::SearchStep { forward: true }).1 == (
        RequestView::SearchStep { forward: true }),
        session::taken(s, KeyOutcome::SearchStep { forward: false }).1 == (
        RequestView::SearchStep { forward: false }),
        session::taken(s, KeyOutcome::Cancel).1 == RequestView::DropSearch,
        session::taken(s, KeyOutcome::Quit).1 == RequestView::CloseWindow,
        session::taken(s, KeyOutcome::Action { action, count }) == (
            s,
            RequestView::Navigate { action, count },
        ),
        session::taken(s, KeyOutcome::Window(op)) == (s, RequestView::Window(op)),
        session::taken(s, KeyOutcome::ToggleToc).1 == RequestView::OpenToc,
        session::taken(s, KeyOutcome::SetMark(c)).1 == RequestView::SetMark(c),
        session::taken(s, KeyOutcome::JumpMark(c)).1 == RequestView::JumpMark(c),
        session::taken(s, KeyOutcome::JumpBack).1 == RequestView::JumpBack,
        session::taken(s, KeyOutcome::JumpForward).1 == RequestView::JumpForward,
        session::taken(s, KeyOutcome::Pending).1 == RequestView::Nothing,
{
}

/// The keys of normal mode in a window with a document: what is pressed is
/// what is asked for.
pub proof fn lemma_normal_keys(s: SessionView, rows: Seq<Offer>)
    requires
        at_rest(s),
    ensures
        asks(s, bare(KeyCode::Char('j')), false, rows) == (RequestView::Navigate {
            action: Action::NextScreen,
            count: 1,
        }),
        asks(s, bare(KeyCode::Char('k')), false, rows) == (RequestView::Navigate {
            action: Action::PrevScreen,
            count: 1,
        }),
        asks(s, bare(KeyCode::PageDown), false, rows) == (RequestView::Navigate {
            action: Action::NextPage,
            count: 1,
        }),
        asks(s, bare(KeyCode::PageUp), false, rows) == (RequestView::Navigate {
            action: Action::PrevPage,
            count: 1,
        }),
        asks(s, bare(KeyCode::Char('n')), false, rows) == (RequestView::SearchStep {
            forward: true,
        }),
        asks(s, bare(KeyCode::Char('N')), false, rows) == (RequestView::SearchStep {
            forward: false,
        }),
        leaves(s, bare(KeyCode::Char('/')), false, rows).mode == (ModeView::Search {
            input: Seq::empty(),
            forward: true,
        }),
        leaves(s, bare(KeyCode::Char('?')), false, rows).mode == (ModeView::Search {
            input: Seq::empty(),
            forward: false,
        }),
        leaves(s, bare(KeyCode::Char(':')), false, rows).mode == (ModeView::Command {
            input: Seq::empty(),
            chosen: None,
        }),
        asks(s, control(KeyCode::Char('o')), false, rows) == RequestView::JumpBack,
        asks(s, bare(KeyCode::Char('t')), false, rows) == RequestView::OpenToc,
        asks(s, bare(KeyCode::Char('q')), false, rows) == RequestView::CloseWindow,
{
}

/// The palette with an input and perhaps a row chosen.
pub open spec fn typing(s: SessionView, input: Seq<char>, chosen: Option<usize>) -> SessionView {
    SessionView { mode: ModeView::Command { input, chosen }, ..s }
}

/// In the palette a letter is appended and Backspace takes the last one away;
/// Enter runs what was typed, where anything was, and Esc runs nothing.
pub proof fn lemma_palette_typing(
    s: SessionView,
    input: Seq<char>,
    c: char,
    directory: bool,
    rows: Seq<Offer>,
)
    ensures
        ({
            let here = typing(s, input, None);
            &&& leaves(here, bare(KeyCode::Char(c)), directory, rows) == typing(
                s,
                input.push(c),
                None,
            )
            &&& asks(here, bare(KeyCode::Char(c)), directory, rows) == RequestView::Nothing
            &&& leaves(
                typing(s, input.push(c), None),
                bare(KeyCode::Backspace),
                directory,
                rows,
            ) == typing(s, input, None)
            &&& input.len() == 0 ==> leaves(here, bare(KeyCode::Backspace), directory, rows) == here
            &&& input.len() > 0 ==> asks(here, bare(KeyCode::Enter), directory, rows)
                == RequestView::Execute(input)
            &&& input.len() == 0 ==> asks(here, bare(KeyCode::Enter), directory, rows)
                == RequestView::Nothing
            &&& leaves(here, bare(KeyCode::Enter), directory, rows).mode == ModeView::Normal
            &&& asks(here, bare(KeyCode::Esc), directory, rows) == RequestView::Nothing
            &&& leaves(here, bare(KeyCode::Esc), directory, rows).mode == ModeView::Normal
        }),
{
    assert(input.push(c).drop_last() =~= input);
}

/// The row after one is the next, and after the last the first; the row before
/// the other way round. Without a chosen row the first and the last come.
pub proof fn lemma_row_order(total: int, i: usize)
    requires
        i < total <= usize::MAX,
    ensures
        i + 1 < total ==> palette::cycled(total, Some(i), false) == Some(i + 1),
        i + 1 == total ==> palette::cycled(total, Some(i), false) == Some(0int),
        i > 0 ==> palette::cycled(total, Some(i), true) == Some(i - 1),
        i == 0 ==> palette::cycled(total, Some(i), true) == Some(total - 1),
        palette::cycled(total, None, false) == Some(0int),
        palette::cycled(total, None, true) == Some(total - 1),
        palette::cycled(0, Some(i), false) is None,
{
    if i + 1 < total {
        vstd::arithmetic::div_mod::lemma_small_mod((i + 1) as nat, total as nat);
    } else {
        vstd::arithmetic::div_mod::lemma_mod_self_0(total);
    }
}

/// Tab, the down arrow and Control-n go to the next row, Shift-Tab, the up
/// arrow and Control-p to the one before; the input stays.
pub proof fn lemma_palette_rows(
    s: SessionView,
    input: Seq<char>,
    i: usize,
    directory: bool,
    rows: Seq<Offer>,
)
    requires
        i + 1 < rows.len() <= usize::MAX,
    ensures
        ({
            let here = typing(s, input, Some(i));
            let next = typing(s, input, Some((i + 1) as usize));
            &&& leaves(here, bare(KeyCode::Tab), directory, rows) == next
            &&& leaves(here, bare(KeyCode::Down), directory, rows) == next
            &&& leaves(here, control(KeyCode::Char('n')), directory, rows) == next
            &&& leaves(next, bare(KeyCode::BackTab), directory, rows) == here
            &&& leaves(next, bare(KeyCode::Up), directory, rows) == here
            &&& leaves(next, control(KeyCode::Char('p')), directory, rows) == here
        }),
        leaves(typing(s, input, None), bare(KeyCode::Tab), directory, rows) == typing(
            s,
            input,
            Some(0),
        ),
        leaves(typing(s, input, None), bare(KeyCode::Up), directory, rows) == typing(
            s,
            input,
            Some((rows.len() - 1) as usize),
        ),
{
    lemma_row_order(rows.len() as int, i);
    lemma_row_order(rows.len() as int, (i + 1) as usize);
}

/// A row that is taken replaces what stands behind its place; a row for the
/// whole input replaces it all.
pub proof fn lemma_row_taken(input: Seq<char>, head: Seq<char>, row: Offer)
    ensures
        row.from == 0 ==> palette::accepted(input, row) == row.insert,
        row.from == head.len() ==> palette::accepted(head + input, row) == head + row.insert,
{
    assert(input.take(0) =~= Seq::<char>::empty());
    assert(Seq::<char>::empty() + row.insert =~= row.insert);
    if input.len() == 0 {
        assert(head + input =~= head);
    } else {
        assert((head + input).take(head.len() as int) =~= head);
    }
    if row.from == 0 && input.len() == 0 {
        assert(input + row.insert =~= row.insert);
    }
}

/// In the search prompt a letter is appended and Backspace takes the last one
/// away; Enter searches for what was typed in the direction in which the prompt
/// was opened, and Esc for nothing.
pub proof fn lemma_search_prompt(
    s: SessionView,
    input: Seq<char>,
    forward: bool,
    c: char,
    directory: bool,
    rows: Seq<Offer>,
)
    ensures
        ({
            let here = SessionView { mode: ModeView::Search { input, forward }, ..s };
            let longer = SessionView {
                mode: ModeView::Search { input: input.push(c), forward },
                ..s
            };
            &&& leaves(here, bare(KeyCode::Char(c)), directory, rows) == longer
            &&& leaves(longer, bare(KeyCode::Backspace), directory, rows) == here
            &&& input.len() > 0 ==> asks(here, bare(KeyCode::Enter), directory, rows) == (
            RequestView::Search { query: input, forward })
            &&& input.len() == 0 ==> asks(here, bare(KeyCode::Enter), directory, rows)
                == RequestView::Nothing
            &&& leaves(here, bare(KeyCode::Enter), directory, rows).mode == ModeView::Normal
            &&& asks(here, bare(KeyCode::Esc), directory, rows) == RequestView::Nothing
            &&& leaves(here, bare(KeyCode::Esc), directory, rows).mode == ModeView::Normal
        }),
{
    assert(input.push(c).drop_last() =~= input);
}

/// In a list j and the down arrow go down and k and the up arrow up, by the
/// count, to an end at most.
pub proof fn lemma_list_steps(
    selected: usize,
    total: int,
    count: Option<usize>,
    by_count: bool,
)
    requires
        selected < total <= usize::MAX,
    ensures
        ({
            let pending = KeyParserState { count, leader: Leader::Idle };
            let n: int = match count {
                Some(k) => if k == 0 {
                    1
                } else {
                    k as int
                },
                None => 1,
            };
            let down = session::list_key(selected, pending, total, KeyCode::Char('j'), by_count);
            let up = session::list_key(selected, pending, total, KeyCode::Char('k'), by_count);
            &&& down == session::list_key(selected, pending, total, KeyCode::Down, by_count)
            &&& up == session::list_key(selected, pending, total, KeyCode::Up, by_count)
            &&& selected + n < total ==> down.0 == selected + n
            &&& selected + n >= total ==> down.0 == total - 1
            &&& n <= selected ==> up.0 == selected - n
            &&& n > selected ==> up.0 == 0
            &&& down.1.count is None && up.1.count is None
        }),
{
}

/// Home goes to the first line. G goes to the last and gg to the first, or to
/// the line that a count names, counted from 1, where counts name lines. Digits
/// make up a count, from left to right; a zero does not begin one.
pub proof fn lemma_list_jumps(selected: usize, total: int, n: usize, c: char, by_count: bool)
    requires
        selected < total <= usize::MAX,
    ensures
        ({
            let none = KeyParserState { count: None, leader: Leader::Idle };
            let waiting = KeyParserState { count: None, leader: Leader::G };
            let counted = KeyParserState { count: Some(n), leader: Leader::Idle };
            &&& session::list_key(selected, none, total, KeyCode::Home, by_count) == (0usize, none)
            &&& session::list_key(selected, none, total, KeyCode::Char('G'), by_count) == (
                (total - 1) as usize,
                none,
            )
            &&& session::list_key(selected, none, total, KeyCode::End, by_count) == (
                (total - 1) as usize,
                none,
            )
            &&& session::list_key(selected, none, total, KeyCode::Char('g'), by_count) == (
                selected,
                waiting,
            )
            &&& session::list_key(selected, waiting, total, KeyCode::Char('g'), by_count) == (
                0usize,
                none,
            )
            &&& 1 <= n <= total ==> {
                let there = session::list_key(
                    selected,
                    counted,
                    total,
                    KeyCode::Char('G'),
                    by_count,
                ).0;
                &&& by_count ==> there == n - 1
                &&& !by_count ==> there == total - 1
            }
            &&& n > total && by_count ==> session::list_key(
                selected,
                counted,
                total,
                KeyCode::Char('G'),
                by_count,
            ).0 == total - 1
            &&& '1' <= c <= '9' ==> session::list_key(
                selected,
                none,
                total,
                KeyCode::Char(c),
                by_count,
            ) == (selected, KeyParserState { count: Some((c as int - '0' as int) as usize), ..none })
            &&& session::list_key(selected, none, total, KeyCode::Char('0'), by_count) == (
                selected,
                none,
            )
            &&& '0' <= c <= '9' && n * 10 + 9 <= usize::MAX ==> session::list_key(
                selected,
                counted,
                total,
                KeyCode::Char(c),
                by_count,
            ) == (
                selected,
                KeyParserState { count: Some((n * 10 + (c as int - '0' as int)) as usize), ..counted },
            )
        }),
{
}

/// Enter in the table of contents closes it and goes to the top of the page of
/// the selected line; q, t and Esc just close it.
pub proof fn lemma_toc_keys(
    s: SessionView,
    lines: Seq<TocLine>,
    selected: usize,
    directory: bool,
    rows: Seq<Offer>,
)
    requires
        selected < lines.len() <= usize::MAX,
        0 <= lines[selected as int].page <= usize::MAX,
        s.mode == (ModeView::Toc {
            lines,
            selected,
            pending: KeyParserState { count: None, leader: Leader::Idle },
        }),
    ensures
        asks(s, bare(KeyCode::Enter), directory, rows) == (RequestView::Goto {
            page: lines[selected as int].page as usize,
            x_off: 0,
            y_off: 0,
        }),
        leaves(s, bare(KeyCode::Enter), directory, rows).mode == ModeView::Normal,
        forall|code: KeyCode|
            code == KeyCode::Esc || code == KeyCode::Char('q') || code == KeyCode::Char('t') ==> {
                &&& #[trigger] asks(s, bare(code), directory, rows) == RequestView::Nothing
                &&& leaves(s, bare(code), directory, rows).mode == ModeView::Normal
            },
        leaves(s, bare(KeyCode::Char('j')), directory, rows).mode matches ModeView::Toc {
            lines: same,
            selected: now,
            ..
        } && same == lines && now == (if selected + 1 < lines.len() {
            selected + 1
        } else {
            selected as int
        }),
{
}

/// Enter in the list of marks closes it and goes to the place of the selected
/// mark, d asks for that mark to be deleted, and q and Esc just close it.
pub proof fn lemma_marks_keys(
    s: SessionView,
    marks: Seq<Bookmark>,
    selected: usize,
    directory: bool,
    rows: Seq<Offer>,
)
    requires
        selected < marks.len() <= usize::MAX,
        s.mode == (ModeView::Marks {
            marks,
            selected,
            pending: KeyParserState { count: None, leader: Leader::Idle },
        }),
    ensures
        asks(s, bare(KeyCode::Enter), directory, rows) == (RequestView::Goto {
            page: marks[selected as int].page,
            x_off: marks[selected as int].x_off,
            y_off: marks[selected as int].y_off,
        }),
        leaves(s, bare(KeyCode::Enter), directory, rows).mode == ModeView::Normal,
        asks(s, bare(KeyCode::Char('d')), directory, rows) == RequestView::DeleteMark(
            marks[selected as int].mark,
        ),
        forall|code: KeyCode|
            code == KeyCode::Esc || code == KeyCode::Char('q') ==> {
                &&& #[trigger] asks(s, bare(code), directory, rows) == RequestView::Nothing
                &&& leaves(s, bare(code), directory, rows).mode == ModeView::Normal
            },
        marks.len() == 1 ==> session::mark_gone(s).mode == ModeView::Normal,
        marks.len() > 1 ==> (session::mark_gone(s).mode matches ModeView::Marks {
            marks: rest,
            selected: now,
            ..
        } && rest == marks.remove(selected as int) && now < rest.len() && (selected + 1
            < marks.len() ==> now == selected) && (selected + 1 == marks.len() ==> now == selected
            - 1)),
{
}

/// q and Esc leave the help; no other key does, and none asks for anything.
pub proof fn lemma_help_keys(s: SessionView, code: KeyCode, directory: bool, rows: Seq<Offer>)
    requires
        s.mode == ModeView::Help,
    ensures
        asks(s, bare(code), directory, rows) == RequestView::Nothing,
        leaves(s, bare(code), directory, rows).mode == (if code == KeyCode::Esc || code
            == KeyCode::Char('q') {
            ModeView::Normal
        } else {
            ModeView::Help
        }),
{
}

/// A list of marks is in alphabetical order and a table of contents opens at
/// the last line that does not lead past the page that is shown.
pub proof fn lemma_toc_opens_at(lines: Seq<TocLine>, page: int, i: int)
    requires
        0 <= i < lines.len(),
        lines[i].page <= page,
        forall|j: int| i < j < lines.len() ==> (#[trigger] lines[j]).page > page,
    ensures
        lists::line_for(lines, page) == i,
{
    lists::lemma_line_for(lines, page);
    let k = lists::line_for(lines, page);
    if k > i {
        assert(lines[k].page > page);
    } else if k < i {
        assert(page < lines[i].page);
    }
}

/// Pages are shown counted from 1, and a line is indented by two spaces for
/// each level above it, eight levels at most.
pub proof fn lemma_toc_text(title: Seq<char>, page: nat, depth: nat)
    requires
        page < usize::MAX,
        depth < 8,
    ensures
        lists::toc_text(TocLine { depth: depth as int, title, page: page as int }).len()
            == 2 * depth + title.len() + "  · p"@.len() + text::decimal(page + 1).len(),
        lists::toc_text(TocLine { depth: depth as int, title, page: page as int }).skip(
            (2 * depth + title.len() + "  · p"@.len()) as int,
        ) == text::decimal(page + 1),
        lists::toc_text(TocLine { depth: depth as int, title, page: page as int }).subrange(
            2 * depth as int,
            (2 * depth + title.len()) as int,
        ) == title,
{
    lemma_indent(depth);
    let e = TocLine { depth: depth as int, title, page: page as int };
    let a = lists::indent(depth);
    let b = "  · p"@;
    let c = text::decimal(page + 1);
    let t = lists::toc_text(e);
    assert(t =~= a + title + b + c);
    assert(t.skip((2 * depth + title.len() + b.len()) as int) =~= c);
    assert(t.subrange(2 * depth as int, (2 * depth + title.len()) as int) =~= title);
}

proof fn lemma_indent(levels: nat)
    ensures
        lists::indent(levels).len() == 2 * levels,
        forall|i: int| 0 <= i < 2 * levels ==> #[trigger] lists::indent(levels)[i] == ' ',
    decreases levels,
{
    reveal_strlit("  ");
    if levels > 0 {
        lemma_indent((levels - 1) as nat);
        assert("  "@[0] == ' ' && "  "@[1] == ' ');
    }
}

} // verus!
