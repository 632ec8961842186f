//! What each command line does.
use vstd::prelude::*;

use crate::command_table;
use crate::commands::{
    self, ColorPalette, CommandError, Knob, ParsedCommand, SplitDirection,
};
use crate::commands_laws;
use crate::document::PageMetrics;
use crate::navigator::{self, Action};
use crate::navigator_laws;
use crate::number::Real32;
use crate::text;
use crate::viewport::{Rotation, Viewport, ZoomMode};

verus! {

/// The line is a word alone, or followed by a space and an argument.
pub open spec fn says(line: Seq<char>, name: Seq<char>, arg: Seq<char>) -> bool {
    ||| line == name && arg.len() == 0
    ||| line == name + seq![' '] + arg
}

/// The line is parsed into `c`.
pub open spec fn gives(r: Result<ParsedCommand, CommandError>, c: ParsedCommand) -> bool {
    r == Ok::<_, CommandError>(c)
}

/// The line takes an action in the focused window.
pub open spec fn takes(r: Result<ParsedCommand, CommandError>, action: Action) -> bool {
    gives(r, ParsedCommand::Nav(action))
}

/// The line is refused with a message that starts that way.
pub open spec fn complains(r: Result<ParsedCommand, CommandError>) -> bool {
    r matches Err(CommandError::Usage { .. })
}

proof fn lemma_obeyed(
    line: Seq<char>,
    arg: Seq<char>,
    i: int,
    k: int,
    home: Option<Seq<char>>,
    r: Result<ParsedCommand, CommandError>,
)
    requires
        0 <= i < command_table::verbs().len(),
        0 <= k < command_table::spellings(command_table::verbs()[i]).len(),
        says(line, command_table::spellings(command_table::verbs()[i])[k], arg),
        commands::means(line, home, r),
    ensures
        commands::obeys(command_table::verbs()[i], text::trimmed(arg), home, r),
{
    let name = command_table::spellings(command_table::verbs()[i])[k];
    if line == name {
        let none = Seq::<char>::empty();
        let space = seq![' '];
        assert(commands_laws::blank(none) && commands_laws::blank(space));
        commands_laws::lemma_outer_space(none, name, space, home, r);
        assert(none + name + space =~= name + space + none);
        assert(arg =~= none);
        if arg.len() == 0 {
            commands_laws::lemma_line_is_obeyed(i, k, none, home, r);
        } else {
            assert(line.len() == name.len() + 1 + arg.len());
        }
    } else {
        commands_laws::lemma_line_is_obeyed(i, k, arg, home, r);
    }
}

/// `r` is an action that shows page `target` from its start, or the nearest
/// page that there is.
pub open spec fn turns_to<D: PageMetrics>(
    r: Result<ParsedCommand, CommandError>,
    doc: &D,
    v: Viewport,
    target: int,
    product: Real32,
) -> bool {
    r matches Ok(ParsedCommand::Nav(action)) && navigator_laws::gone_to(
        doc,
        v,
        navigator::moved(doc, v, action, product).0,
        target,
    )
}

/// `:next` and `:prev` turn one page on and one page back, as PageDown and
/// PageUp do; `:first` and `:last` turn to the first and the last page.
pub proof fn lemma_turning_lines<D: PageMetrics>(
    line: Seq<char>,
    arg: Seq<char>,
    home: Option<Seq<char>>,
    r: Result<ParsedCommand, CommandError>,
    doc: &D,
    v: Viewport,
    product: Real32,
)
    requires
        commands::means(line, home, r),
        v.page_idx < doc.pages() <= usize::MAX,
        1 <= v.screen_w <= i32::MAX,
        1 <= v.screen_h <= i32::MAX,
    ensures
        says(line, "next"@, arg) ==> {
            &&& turns_to(r, doc, v, v.page_idx + 1, product)
            &&& takes(r, Action::NextPage)
        },
        says(line, "prev"@, arg) ==> {
            &&& turns_to(r, doc, v, v.page_idx - 1, product)
            &&& takes(r, Action::PrevPage)
        },
        says(line, "first"@, arg) ==> {
            &&& turns_to(r, doc, v, 0, product)
            &&& takes(r, Action::FirstPage)
        },
        says(line, "last"@, arg) ==> {
            &&& turns_to(r, doc, v, doc.pages() - 1, product)
            &&& takes(r, Action::LastPage)
        },
{
    navigator_laws::lemma_pages(doc, v, 0, product);
    if says(line, "next"@, arg) {
        lemma_obeyed(line, arg, 25, 0, home, r);
    }
    if says(line, "prev"@, arg) {
        lemma_obeyed(line, arg, 26, 0, home, r);
    }
    if says(line, "first"@, arg) {
        lemma_obeyed(line, arg, 23, 0, home, r);
    }
    if says(line, "last"@, arg) {
        lemma_obeyed(line, arg, 24, 0, home, r);
    }
}

/// On a page that has one after it `:next` leads to that one, and `:prev` from
/// there back.
pub proof fn lemma_next_and_prev<D: PageMetrics>(
    next: Result<ParsedCommand, CommandError>,
    prev: Result<ParsedCommand, CommandError>,
    home: Option<Seq<char>>,
    doc: &D,
    v: Viewport,
    product: Real32,
)
    requires
        commands::means("next"@, home, next),
        commands::means("prev"@, home, prev),
        v.page_idx + 1 < doc.pages() <= usize::MAX,
        1 <= v.screen_w <= i32::MAX,
        1 <= v.screen_h <= i32::MAX,
    ensures
        next matches Ok(ParsedCommand::Nav(on)) && (prev matches Ok(ParsedCommand::Nav(back)) && {
            let there = navigator::moved(doc, v, on, product).0;
            &&& there.page_idx == v.page_idx + 1
            &&& navigator::moved(doc, there, back, product).0.page_idx == v.page_idx
        }),
{
    let none = Seq::<char>::empty();
    lemma_turning_lines("next"@, none, home, next, doc, v, product);
    let there = navigator::moved(doc, v, Action::NextPage, product).0;
    lemma_turning_lines("prev"@, none, home, prev, doc, there, product);
}

/// The decimal digits of a number are read as that number, with nothing to
/// trim.
proof fn lemma_digits_read(n: nat)
    ensures
        text::trimmed(text::decimal(n)) == text::decimal(n),
        text::unsigned_of(text::decimal(n), usize::MAX as nat) == (if n <= usize::MAX {
            Some(n)
        } else {
            None
        }),
        text::signed_of(text::decimal(n), i32::MIN as int, i32::MAX as int) == (if n <= i32::MAX {
            Some(n as int)
        } else {
            None
        }),
        commands::signed_arg(text::decimal(n)) == (if n <= i32::MAX {
            Some(n as int)
        } else {
            None
        }),
{
    let s = text::decimal(n);
    text::lemma_decimal_reads_back(n);
    assert(text::is_digit(s[0]));
    assert(text::is_digit(s.last()));
}

/// A minus sign before the digits makes the number negative; a plus sign
/// changes nothing.
proof fn lemma_signs_read(n: nat)
    requires
        n <= i32::MAX,
    ensures
        commands::signed_arg(text::trimmed(seq!['-'] + text::decimal(n))) == Some(-(n as int)),
        commands::signed_arg(text::trimmed(seq!['+'] + text::decimal(n))) == Some(n as int),
{
    let s = text::decimal(n);
    let minus = seq!['-'] + s;
    let plus = seq!['+'] + s;
    text::lemma_decimal_reads_back(n);
    lemma_digits_read(n);
    assert(text::is_digit(s.last()) && text::is_digit(s[0]));
    assert(minus.last() == s.last() && plus.last() == s.last());
    assert(minus.skip(1) =~= s && plus.skip(1) =~= s);
    assert(text::trimmed(minus) == minus && text::trimmed(plus) == plus);
}

/// `:goto N` and `:jump N` turn to page N, counted from 1; zero means the
/// first page too.
pub proof fn lemma_goto_lines<D: PageMetrics>(
    line: Seq<char>,
    n: usize,
    home: Option<Seq<char>>,
    r: Result<ParsedCommand, CommandError>,
    doc: &D,
    v: Viewport,
    product: Real32,
)
    requires
        commands::means(line, home, r),
        says(line, "goto"@, text::decimal(n as nat)) || says(
            line,
            "jump"@,
            text::decimal(n as nat),
        ),
        v.page_idx < doc.pages() <= usize::MAX,
        1 <= v.screen_w <= i32::MAX,
        1 <= v.screen_h <= i32::MAX,
    ensures
        turns_to(r, doc, v, n - 1, product),
        n > 0 ==> takes(r, Action::GotoPage((n - 1) as usize)),
        n == 0 ==> takes(r, Action::GotoPage(0)),
{
    lemma_digits_read(n as nat);
    text::lemma_decimal_reads_back(n as nat);
    let page = if n == 0 {
        0
    } else {
        (n - 1) as usize
    };
    navigator_laws::lemma_pages(doc, v, page, product);
    if says(line, "goto"@, text::decimal(n as nat)) {
        lemma_obeyed(line, text::decimal(n as nat), 20, 0, home, r);
    } else {
        lemma_obeyed(line, text::decimal(n as nat), 20, 1, home, r);
    }
}

/// `:top`, `:middle` and `:bottom` show that part of the page, as H, M and L
/// do.
pub proof fn lemma_anchor_lines(
    line: Seq<char>,
    arg: Seq<char>,
    home: Option<Seq<char>>,
    r: Result<ParsedCommand, CommandError>,
)
    requires
        commands::means(line, home, r),
    ensures
        says(line, "top"@, arg) ==> takes(r, Action::PageTop),
        says(line, "middle"@, arg) ==> takes(r, Action::PageMiddle),
        says(line, "bottom"@, arg) ==> takes(r, Action::PageBottom),
        says(line, "reset"@, arg) ==> gives(r, ParsedCommand::Reset),
        says(line, "help"@, arg) ==> gives(r, ParsedCommand::Help),
        says(line, "copy"@, arg) ==> gives(r, ParsedCommand::CopyPage),
        says(line, "toc"@, arg) ==> gives(r, ParsedCommand::ToggleToc),
        says(line, "marks"@, arg) || says(line, "bookmarks"@, arg) ==> gives(
            r,
            ParsedCommand::ToggleMarks,
        ),
        says(line, "back"@, arg) ==> gives(r, ParsedCommand::JumpBack),
        says(line, "forward"@, arg) ==> gives(r, ParsedCommand::JumpForward),
        says(line, "text"@, arg) ==> gives(r, ParsedCommand::OpenTextEditor),
{
    if says(line, "top"@, arg) {
        lemma_obeyed(line, arg, 27, 0, home, r);
    }
    if says(line, "bottom"@, arg) {
        lemma_obeyed(line, arg, 28, 0, home, r);
    }
    if says(line, "middle"@, arg) {
        lemma_obeyed(line, arg, 29, 0, home, r);
    }
    if says(line, "reset"@, arg) {
        lemma_obeyed(line, arg, 30, 0, home, r);
    }
    if says(line, "help"@, arg) {
        lemma_obeyed(line, arg, 31, 0, home, r);
    }
    if says(line, "copy"@, arg) {
        lemma_obeyed(line, arg, 41, 0, home, r);
    }
    if says(line, "toc"@, arg) {
        lemma_obeyed(line, arg, 42, 0, home, r);
    }
    if says(line, "marks"@, arg) {
        lemma_obeyed(line, arg, 43, 0, home, r);
    }
    if says(line, "bookmarks"@, arg) {
        lemma_obeyed(line, arg, 43, 1, home, r);
    }
    if says(line, "back"@, arg) {
        lemma_obeyed(line, arg, 45, 0, home, r);
    }
    if says(line, "forward"@, arg) {
        lemma_obeyed(line, arg, 46, 0, home, r);
    }
    if says(line, "text"@, arg) {
        lemma_obeyed(line, arg, 48, 0, home, r);
    }
}

/// The commands for windows, tabs and buffers that take no argument: their
/// names and their short forms.
pub proof fn lemma_window_lines(
    line: Seq<char>,
    arg: Seq<char>,
    home: Option<Seq<char>>,
    r: Result<ParsedCommand, CommandError>,
)
    requires
        commands::means(line, home, r),
    ensures
        says(line, "close"@, arg) || says(line, "clo"@, arg) ==> gives(
            r,
            ParsedCommand::CloseWindow,
        ),
        says(line, "quit"@, arg) || says(line, "q"@, arg) ==> gives(r, ParsedCommand::CloseWindow),
        says(line, "qall"@, arg) || says(line, "qa"@, arg) || says(line, "exit"@, arg) ==> gives(
            r,
            ParsedCommand::Quit,
        ),
        says(line, "only"@, arg) || says(line, "on"@, arg) ==> gives(r, ParsedCommand::OnlyWindow),
        says(line, "tabclose"@, arg) || says(line, "tabc"@, arg) ==> gives(
            r,
            ParsedCommand::TabClose,
        ),
        says(line, "tabonly"@, arg) || says(line, "tabo"@, arg) ==> gives(
            r,
            ParsedCommand::TabOnly,
        ),
        says(line, "bnext"@, arg) || says(line, "bn"@, arg) ==> gives(r, ParsedCommand::BufferNext),
        says(line, "bprev"@, arg) || says(line, "bp"@, arg) ==> gives(r, ParsedCommand::BufferPrev),
{
    if says(line, "close"@, arg) {
        lemma_obeyed(line, arg, 2, 0, home, r);
    }
    if says(line, "clo"@, arg) {
        lemma_obeyed(line, arg, 2, 1, home, r);
    }
    if says(line, "only"@, arg) {
        lemma_obeyed(line, arg, 3, 0, home, r);
    }
    if says(line, "on"@, arg) {
        lemma_obeyed(line, arg, 3, 1, home, r);
    }
    if says(line, "tabclose"@, arg) {
        lemma_obeyed(line, arg, 8, 0, home, r);
    }
    if says(line, "tabc"@, arg) {
        lemma_obeyed(line, arg, 8, 1, home, r);
    }
    if says(line, "tabonly"@, arg) {
        lemma_obeyed(line, arg, 9, 0, home, r);
    }
    if says(line, "tabo"@, arg) {
        lemma_obeyed(line, arg, 9, 1, home, r);
    }
    if says(line, "bnext"@, arg) {
        lemma_obeyed(line, arg, 13, 0, home, r);
    }
    if says(line, "bn"@, arg) {
        lemma_obeyed(line, arg, 13, 1, home, r);
    }
    if says(line, "bprev"@, arg) {
        lemma_obeyed(line, arg, 14, 0, home, r);
    }
    if says(line, "bp"@, arg) {
        lemma_obeyed(line, arg, 14, 1, home, r);
    }
    if says(line, "quit"@, arg) {
        lemma_obeyed(line, arg, 15, 0, home, r);
    }
    if says(line, "q"@, arg) {
        lemma_obeyed(line, arg, 15, 1, home, r);
    }
    if says(line, "qall"@, arg) {
        lemma_obeyed(line, arg, 19, 0, home, r);
    }
    if says(line, "qa"@, arg) {
        lemma_obeyed(line, arg, 19, 1, home, r);
    }
    if says(line, "exit"@, arg) {
        lemma_obeyed(line, arg, 19, 2, home, r);
    }
}

/// The path that an argument names: as it is written, but a leading `~/` means
/// the home directory where that is known.
pub open spec fn leads_to(file: Option<String>, path: Seq<char>, home: Option<Seq<char>>) -> bool {
    &&& file is Some
    &&& home is None ==> file->0@ == path
    &&& path.len() < 2 || path[0] != '~' || path[1] != '/' ==> file->0@ == path
    &&& home matches Some(h) ==> (path.len() > 2 && path[0] == '~' && path[1] == '/' && path[2] != '/'
        && h.len() > 0 && h.last() != '/' ==> file->0@ == h + seq!['/'] + path.skip(2))
}

proof fn lemma_leads_to(file: Option<String>, path: Seq<char>, home: Option<Seq<char>>)
    requires
        commands::names_path(file, path, home),
        text::trimmed(path) == path,
        path.len() > 0,
    ensures
        leads_to(file, path, home),
{
    reveal_strlit("~/");
    let head = "~/"@;
    assert(head[0] == '~' && head[1] == '/');
    if head.is_prefix_of(path) {
        assert(path.subrange(0, 2) == head);
        assert(path[0] == path.subrange(0, 2)[0] && path[1] == path.subrange(0, 2)[1]);
    } else if path.len() >= 2 && path[0] == '~' && path[1] == '/' {
        assert(path.subrange(0, 2) =~= head);
    }
    if let Some(h) = home {
        assert(h.push('/') + path.skip(2) =~= h + seq!['/'] + path.skip(2));
        if path.len() > 2 {
            assert(path.skip(2)[0] == path[2]);
        }
    }
}

/// `:split` puts the new window below and `:vsplit` beside; both open the file
/// that follows, if one does.
pub proof fn lemma_split_lines(
    line: Seq<char>,
    arg: Seq<char>,
    home: Option<Seq<char>>,
    r: Result<ParsedCommand, CommandError>,
)
    requires
        commands::means(line, home, r),
        text::trimmed(arg) == arg,
    ensures
        says(line, "split"@, arg) || says(line, "sp"@, arg) ==> (r matches Ok(
            ParsedCommand::Split { direction, file },
        ) && direction == SplitDirection::Horizontal && if arg.len() == 0 {
            file is None
        } else {
            leads_to(file, arg, home)
        }),
        says(line, "vsplit"@, arg) || says(line, "vsp"@, arg) ==> (r matches Ok(
            ParsedCommand::Split { direction, file },
        ) && direction == SplitDirection::Vertical && if arg.len() == 0 {
            file is None
        } else {
            leads_to(file, arg, home)
        }),
{
    if says(line, "split"@, arg) {
        lemma_obeyed(line, arg, 0, 0, home, r);
    }
    if says(line, "sp"@, arg) {
        lemma_obeyed(line, arg, 0, 1, home, r);
    }
    if says(line, "vsplit"@, arg) {
        lemma_obeyed(line, arg, 1, 0, home, r);
    }
    if says(line, "vsp"@, arg) {
        lemma_obeyed(line, arg, 1, 1, home, r);
    }
    if let Ok(ParsedCommand::Split { direction, file }) = r {
        if arg.len() > 0 && commands::names_path(file, arg, home) {
            lemma_leads_to(file, arg, home);
        }
    }
}

/// `:Explore` lists a directory in the window itself, `:Sexplore` in a split
/// below and `:Vexplore` in one beside it.
pub proof fn lemma_explore_lines(
    line: Seq<char>,
    arg: Seq<char>,
    home: Option<Seq<char>>,
    r: Result<ParsedCommand, CommandError>,
)
    requires
        commands::means(line, home, r),
        text::trimmed(arg) == arg,
    ensures
        says(line, "Explore"@, arg) || says(line, "Ex"@, arg) ==> (r matches Ok(
            ParsedCommand::Explore { split, path },
        ) && split is None && if arg.len() == 0 {
            path is None
        } else {
            leads_to(path, arg, home)
        }),
        says(line, "Sexplore"@, arg) || says(line, "Sex"@, arg) ==> (r matches Ok(
            ParsedCommand::Explore { split, path },
        ) && split == Some(SplitDirection::Horizontal) && if arg.len() == 0 {
            path is None
        } else {
            leads_to(path, arg, home)
        }),
        says(line, "Vexplore"@, arg) || says(line, "Vex"@, arg) ==> (r matches Ok(
            ParsedCommand::Explore { split, path },
        ) && split == Some(SplitDirection::Vertical) && if arg.len() == 0 {
            path is None
        } else {
            leads_to(path, arg, home)
        }),
{
    if says(line, "Explore"@, arg) {
        lemma_obeyed(line, arg, 4, 0, home, r);
    }
    if says(line, "Ex"@, arg) {
        lemma_obeyed(line, arg, 4, 1, home, r);
    }
    if says(line, "Sexplore"@, arg) {
        lemma_obeyed(line, arg, 5, 0, home, r);
    }
    if says(line, "Sex"@, arg) {
        lemma_obeyed(line, arg, 5, 1, home, r);
    }
    if says(line, "Vexplore"@, arg) {
        lemma_obeyed(line, arg, 6, 0, home, r);
    }
    if says(line, "Vex"@, arg) {
        lemma_obeyed(line, arg, 6, 1, home, r);
    }
    if let Ok(ParsedCommand::Explore { split, path }) = r {
        if arg.len() > 0 && commands::names_path(path, arg, home) {
            lemma_leads_to(path, arg, home);
        }
    }
}

/// `:edit` and `:open` load the file that follows and want one; `:tabnew` does
/// without.
pub proof fn lemma_file_lines(
    line: Seq<char>,
    arg: Seq<char>,
    home: Option<Seq<char>>,
    r: Result<ParsedCommand, CommandError>,
)
    requires
        commands::means(line, home, r),
        text::trimmed(arg) == arg,
    ensures
        says(line, "edit"@, arg) || says(line, "e"@, arg) || says(line, "open"@, arg) || says(
            line,
            "o"@,
            arg,
        ) ==> if arg.len() == 0 {
            complains(r)
        } else {
            r matches Ok(ParsedCommand::Edit(file)) && leads_to(Some(file), arg, home)
        },
        says(line, "tabnew"@, arg) || says(line, "tabe"@, arg) ==> (r matches Ok(
            ParsedCommand::TabNew(file),
        ) && if arg.len() == 0 {
            file is None
        } else {
            leads_to(file, arg, home)
        }),
{
    if says(line, "tabnew"@, arg) {
        lemma_obeyed(line, arg, 7, 0, home, r);
    }
    if says(line, "tabe"@, arg) {
        lemma_obeyed(line, arg, 7, 1, home, r);
    }
    if says(line, "edit"@, arg) {
        lemma_obeyed(line, arg, 10, 0, home, r);
    }
    if says(line, "e"@, arg) {
        lemma_obeyed(line, arg, 10, 1, home, r);
    }
    if says(line, "open"@, arg) {
        lemma_obeyed(line, arg, 11, 0, home, r);
    }
    if says(line, "o"@, arg) {
        lemma_obeyed(line, arg, 11, 1, home, r);
    }
    if let Ok(ParsedCommand::Edit(file)) = r {
        if arg.len() > 0 && commands::names_path(Some(file), arg, home) {
            lemma_leads_to(Some(file), arg, home);
        }
    }
    if let Ok(ParsedCommand::TabNew(file)) = r {
        if arg.len() > 0 && commands::names_path(file, arg, home) {
            lemma_leads_to(file, arg, home);
        }
    }
}

/// The commands that take a number use the number that is written; a capacity
/// is at least one.
pub proof fn lemma_number_lines(
    line: Seq<char>,
    n: usize,
    home: Option<Seq<char>>,
    r: Result<ParsedCommand, CommandError>,
)
    requires
        commands::means(line, home, r),
    ensures
        ({
            let arg = text::decimal(n as nat);
            let most = if n == 0 {
                1
            } else {
                n
            };
            &&& says(line, "buffer"@, arg) || says(line, "b"@, arg) ==> gives(
                r,
                ParsedCommand::Buffer(n),
            )
            &&& says(line, "cache-size"@, arg) ==> gives(r, ParsedCommand::CacheSize(most))
            &&& says(line, "ecache-size"@, arg) ==> gives(r, ParsedCommand::ECacheSize(most))
            &&& says(line, "prefetch"@, arg) ==> gives(r, ParsedCommand::Prefetch(n))
        }),
{
    let arg = text::decimal(n as nat);
    lemma_digits_read(n as nat);
    if says(line, "buffer"@, arg) {
        lemma_obeyed(line, arg, 12, 0, home, r);
    }
    if says(line, "b"@, arg) {
        lemma_obeyed(line, arg, 12, 1, home, r);
    }
    if says(line, "cache-size"@, arg) {
        lemma_obeyed(line, arg, 36, 0, home, r);
    }
    if says(line, "ecache-size"@, arg) {
        lemma_obeyed(line, arg, 38, 0, home, r);
    }
    if says(line, "prefetch"@, arg) {
        lemma_obeyed(line, arg, 39, 0, home, r);
    }
}

/// `:resize` and `:vresize` grow the window's height and its width and
/// `:tabmove` moves the tab on by the number that follows, with or without a
/// plus sign; a minus sign turns each round.
pub proof fn lemma_signed_lines(
    line: Seq<char>,
    arg: Seq<char>,
    n: i32,
    home: Option<Seq<char>>,
    r: Result<ParsedCommand, CommandError>,
)
    requires
        commands::means(line, home, r),
        i32::MIN < n,
        if n < 0 {
            arg == seq!['-'] + text::decimal((-n) as nat)
        } else {
            arg == text::decimal(n as nat) || arg == seq!['+'] + text::decimal(n as nat)
        },
    ensures
        says(line, "tabmove"@, arg) || says(line, "tabm"@, arg) ==> gives(
            r,
            ParsedCommand::TabMove(n),
        ),
        says(line, "resize"@, arg) || says(line, "res"@, arg) ==> gives(
            r,
            ParsedCommand::Resize(n),
        ),
        says(line, "vresize"@, arg) || says(line, "vres"@, arg) ==> gives(
            r,
            ParsedCommand::VResize(n),
        ),
{
    if n < 0 {
        lemma_signs_read((-n) as nat);
    } else {
        lemma_signs_read(n as nat);
        lemma_digits_read(n as nat);
    }
    if says(line, "tabmove"@, arg) {
        lemma_obeyed(line, arg, 16, 0, home, r);
    }
    if says(line, "tabm"@, arg) {
        lemma_obeyed(line, arg, 16, 1, home, r);
    }
    if says(line, "resize"@, arg) {
        lemma_obeyed(line, arg, 17, 0, home, r);
    }
    if says(line, "res"@, arg) {
        lemma_obeyed(line, arg, 17, 1, home, r);
    }
    if says(line, "vresize"@, arg) {
        lemma_obeyed(line, arg, 18, 0, home, r);
    }
    if says(line, "vres"@, arg) {
        lemma_obeyed(line, arg, 18, 1, home, r);
    }
}

/// What `on`, `off` and `toggle` or nothing ask for.
proof fn lemma_switches()
    ensures
        commands::switch(text::trimmed("on"@)) == Some(Some(true)),
        commands::switch(text::trimmed("off"@)) == Some(Some(false)),
        commands::switch(text::trimmed("toggle"@)) == Some(None::<bool>),
        commands::switch(text::trimmed(""@)) == Some(None::<bool>),
{
    reveal_strlit("on");
    reveal_strlit("off");
    reveal_strlit("toggle");
    reveal_strlit("");
    assert("on"@[0] == 'o' && "on"@.last() == 'n');
    assert("off"@[0] == 'o' && "off"@.last() == 'f');
    assert("toggle"@[0] == 't' && "toggle"@.last() == 'e');
}

/// Switches are turned on by `on` and off by `off`; `toggle` and no argument
/// turn them round.
pub proof fn lemma_switch_lines(
    line: Seq<char>,
    home: Option<Seq<char>>,
    r: Result<ParsedCommand, CommandError>,
)
    requires
        commands::means(line, home, r),
    ensures
        says(line, "night"@, "on"@) ==> takes(r, Action::SetNight(true)),
        says(line, "night"@, "off"@) ==> takes(r, Action::SetNight(false)),
        says(line, "night"@, "toggle"@) || says(line, "night"@, ""@) ==> takes(
            r,
            Action::ToggleNight,
        ),
        says(line, "cache"@, "on"@) ==> gives(r, ParsedCommand::CacheSet(true)),
        says(line, "cache"@, "off"@) ==> gives(r, ParsedCommand::CacheSet(false)),
        says(line, "cache"@, "toggle"@) || says(line, "cache"@, ""@) ==> gives(
            r,
            ParsedCommand::CacheToggle,
        ),
        says(line, "ecache"@, "on"@) ==> gives(r, ParsedCommand::ECacheSet(true)),
        says(line, "ecache"@, "off"@) ==> gives(r, ParsedCommand::ECacheSet(false)),
        says(line, "ecache"@, "toggle"@) || says(line, "ecache"@, ""@) ==> gives(
            r,
            ParsedCommand::ECacheToggle,
        ),
        says(line, "mouse"@, "on"@) ==> gives(r, ParsedCommand::MouseSet(true)),
        says(line, "mouse"@, "off"@) ==> gives(r, ParsedCommand::MouseSet(false)),
        says(line, "mouse"@, "toggle"@) || says(line, "mouse"@, ""@) ==> gives(
            r,
            ParsedCommand::MouseToggle,
        ),
{
    lemma_switches();
    if says(line, "night"@, "on"@) {
        lemma_obeyed(line, "on"@, 32, 0, home, r);
    }
    if says(line, "night"@, "off"@) {
        lemma_obeyed(line, "off"@, 32, 0, home, r);
    }
    if says(line, "night"@, "toggle"@) {
        lemma_obeyed(line, "toggle"@, 32, 0, home, r);
    }
    if says(line, "night"@, ""@) {
        lemma_obeyed(line, ""@, 32, 0, home, r);
    }
    if says(line, "cache"@, "on"@) {
        lemma_obeyed(line, "on"@, 35, 0, home, r);
    }
    if says(line, "cache"@, "off"@) {
        lemma_obeyed(line, "off"@, 35, 0, home, r);
    }
    if says(line, "cache"@, "toggle"@) {
        lemma_obeyed(line, "toggle"@, 35, 0, home, r);
    }
    if says(line, "cache"@, ""@) {
        lemma_obeyed(line, ""@, 35, 0, home, r);
    }
    if says(line, "ecache"@, "on"@) {
        lemma_obeyed(line, "on"@, 37, 0, home, r);
    }
    if says(line, "ecache"@, "off"@) {
        lemma_obeyed(line, "off"@, 37, 0, home, r);
    }
    if says(line, "ecache"@, "toggle"@) {
        lemma_obeyed(line, "toggle"@, 37, 0, home, r);
    }
    if says(line, "ecache"@, ""@) {
        lemma_obeyed(line, ""@, 37, 0, home, r);
    }
    if says(line, "mouse"@, "on"@) {
        lemma_obeyed(line, "on"@, 47, 0, home, r);
    }
    if says(line, "mouse"@, "off"@) {
        lemma_obeyed(line, "off"@, 47, 0, home, r);
    }
    if says(line, "mouse"@, "toggle"@) {
        lemma_obeyed(line, "toggle"@, 47, 0, home, r);
    }
    if says(line, "mouse"@, ""@) {
        lemma_obeyed(line, ""@, 47, 0, home, r);
    }
}

/// A word whose ends are no white space is not trimmed.
proof fn lemma_untrimmed(s: Seq<char>)
    requires
        s.len() > 0,
        !text::is_white(s[0]),
        !text::is_white(s.last()),
    ensures
        text::trimmed(s) == s,
{
}

/// The fits that `:zoom` knows by name, and the palettes that `:colors` knows.
pub proof fn lemma_choice_lines(
    line: Seq<char>,
    home: Option<Seq<char>>,
    r: Result<ParsedCommand, CommandError>,
)
    requires
        commands::means(line, home, r),
    ensures
        says(line, "zoom"@, "fit-w"@) || says(line, "zoom"@, "fitwidth"@) || says(line, "zoom"@, "width"@) || says(line, "zoom"@, "w"@)
            ==> takes(r, Action::SetZoom(ZoomMode::FitWidth)),
        says(line, "zoom"@, "fit-h"@) || says(line, "zoom"@, "fitheight"@) || says(line, "zoom"@, "height"@) || says(line, "zoom"@, "h"@)
            ==> takes(r, Action::SetZoom(ZoomMode::FitHeight)),
        says(line, "zoom"@, "fit-p"@) || says(line, "zoom"@, "fitpage"@) || says(line, "zoom"@, "page"@) || says(line, "zoom"@, "p"@)
            ==> takes(r, Action::SetZoom(ZoomMode::FitPage)),
        says(line, "colors"@, "xterm256"@) || says(line, "colors"@, "256"@) || says(
            line,
            "colors"@,
            "color"@,
        ) ==> gives(r, ParsedCommand::Colors(ColorPalette::XTerm256)),
        says(line, "colors"@, "gray"@) || says(line, "colors"@, "grey"@) || says(
            line,
            "colors"@,
            "grayscale"@,
        ) || says(line, "colors"@, "g8"@) ==> gives(r, ParsedCommand::Colors(ColorPalette::Grayscale)),
        says(line, "rotate"@, "cw"@) ==> takes(r, Action::RotateCw),
        says(line, "rotate"@, "ccw"@) ==> takes(r, Action::RotateCcw),
        says(line, "dpi"@, "auto"@) || says(line, "dpi"@, ""@) ==> takes(
            r,
            Action::SetRenderDpi(None),
        ),
{
    reveal_strlit("fitwidth");
    reveal_strlit("fitheight");
    reveal_strlit("fitpage");
    reveal_strlit("fit-w");
    reveal_strlit("width");
    reveal_strlit("w");
    reveal_strlit("fit-h");
    reveal_strlit("height");
    reveal_strlit("h");
    reveal_strlit("fit-p");
    reveal_strlit("page");
    reveal_strlit("p");
    reveal_strlit("xterm256");
    reveal_strlit("256");
    reveal_strlit("color");
    reveal_strlit("gray");
    reveal_strlit("grey");
    reveal_strlit("g8");
    reveal_strlit("grayscale");
    assert("grayscale"@[0] == 'g' && "grayscale"@.last() == 'e');
    lemma_untrimmed("grayscale"@);
    reveal_strlit("cw");
    reveal_strlit("ccw");
    reveal_strlit("auto");
    reveal_strlit("");
    assert("fit-w"@[0] == 'f' && "fit-w"@.last() == 'w');
    lemma_untrimmed("fit-w"@);
    assert("width"@[0] == 'w' && "width"@.last() == 'h');
    lemma_untrimmed("width"@);
    assert("w"@[0] == 'w' && "w"@.last() == 'w');
    lemma_untrimmed("w"@);
    assert("fit-h"@[0] == 'f' && "fit-h"@.last() == 'h');
    lemma_untrimmed("fit-h"@);
    assert("height"@[0] == 'h' && "height"@.last() == 't');
    lemma_untrimmed("height"@);
    assert("h"@[0] == 'h' && "h"@.last() == 'h');
    lemma_untrimmed("h"@);
    assert("fit-p"@[0] == 'f' && "fit-p"@.last() == 'p');
    lemma_untrimmed("fit-p"@);
    assert("page"@[0] == 'p' && "page"@.last() == 'e');
    lemma_untrimmed("page"@);
    assert("p"@[0] == 'p' && "p"@.last() == 'p');
    lemma_untrimmed("p"@);
    assert("xterm256"@[0] == 'x' && "xterm256"@.last() == '6');
    lemma_untrimmed("xterm256"@);
    assert("256"@[0] == '2' && "256"@.last() == '6');
    lemma_untrimmed("256"@);
    assert("color"@[0] == 'c' && "color"@.last() == 'r');
    lemma_untrimmed("color"@);
    assert("gray"@[0] == 'g' && "gray"@.last() == 'y');
    lemma_untrimmed("gray"@);
    assert("grey"@[0] == 'g' && "grey"@.last() == 'y');
    lemma_untrimmed("grey"@);
    assert("g8"@[0] == 'g' && "g8"@.last() == '8');
    lemma_untrimmed("g8"@);
    assert("cw"@[0] == 'c' && "cw"@.last() == 'w');
    lemma_untrimmed("cw"@);
    assert("ccw"@[0] == 'c' && "ccw"@.last() == 'w');
    lemma_untrimmed("ccw"@);
    assert("auto"@[0] == 'a' && "auto"@.last() == 'o');
    lemma_untrimmed("auto"@);
    assert("fitwidth"@[0] == 'f' && "fitwidth"@.last() == 'h');
    lemma_untrimmed("fitwidth"@);
    assert("fitheight"@[0] == 'f' && "fitheight"@.last() == 't');
    lemma_untrimmed("fitheight"@);
    assert("fitpage"@[0] == 'f' && "fitpage"@.last() == 'e');
    lemma_untrimmed("fitpage"@);
    assert("fit-w"@[3] == '-' && "fit-h"@[3] == '-' && "fit-p"@[3] == '-');
    assert("fit-w"@[4] == 'w' && "fit-h"@[4] == 'h' && "fit-p"@[4] == 'p');
    assert("fitwidth"@[3] == 'w' && "fitheight"@[3] == 'h' && "fitpage"@[3] == 'p');
    if says(line, "zoom"@, "fitwidth"@) {
        lemma_obeyed(line, "fitwidth"@, 21, 0, home, r);
    }
    if says(line, "zoom"@, "fit-w"@) {
        lemma_obeyed(line, "fit-w"@, 21, 0, home, r);
    }
    if says(line, "zoom"@, "width"@) {
        lemma_obeyed(line, "width"@, 21, 0, home, r);
    }
    if says(line, "zoom"@, "w"@) {
        lemma_obeyed(line, "w"@, 21, 0, home, r);
    }
    if says(line, "zoom"@, "fitheight"@) {
        lemma_obeyed(line, "fitheight"@, 21, 0, home, r);
    }
    if says(line, "zoom"@, "fit-h"@) {
        lemma_obeyed(line, "fit-h"@, 21, 0, home, r);
    }
    if says(line, "zoom"@, "height"@) {
        lemma_obeyed(line, "height"@, 21, 0, home, r);
    }
    if says(line, "zoom"@, "h"@) {
        lemma_obeyed(line, "h"@, 21, 0, home, r);
    }
    if says(line, "zoom"@, "fitpage"@) {
        lemma_obeyed(line, "fitpage"@, 21, 0, home, r);
    }
    if says(line, "zoom"@, "fit-p"@) {
        lemma_obeyed(line, "fit-p"@, 21, 0, home, r);
    }
    if says(line, "zoom"@, "page"@) {
        lemma_obeyed(line, "page"@, 21, 0, home, r);
    }
    if says(line, "zoom"@, "p"@) {
        lemma_obeyed(line, "p"@, 21, 0, home, r);
    }
    if says(line, "colors"@, "xterm256"@) {
        lemma_obeyed(line, "xterm256"@, 40, 0, home, r);
    }
    if says(line, "colors"@, "256"@) {
        lemma_obeyed(line, "256"@, 40, 0, home, r);
    }
    if says(line, "colors"@, "color"@) {
        lemma_obeyed(line, "color"@, 40, 0, home, r);
    }
    if says(line, "colors"@, "gray"@) {
        lemma_obeyed(line, "gray"@, 40, 0, home, r);
    }
    if says(line, "colors"@, "grey"@) {
        lemma_obeyed(line, "grey"@, 40, 0, home, r);
    }
    if says(line, "colors"@, "grayscale"@) {
        lemma_obeyed(line, "grayscale"@, 40, 0, home, r);
    }
    if says(line, "colors"@, "g8"@) {
        lemma_obeyed(line, "g8"@, 40, 0, home, r);
    }
    if says(line, "rotate"@, "cw"@) {
        lemma_obeyed(line, "cw"@, 22, 0, home, r);
    }
    if says(line, "rotate"@, "ccw"@) {
        lemma_obeyed(line, "ccw"@, 22, 0, home, r);
    }
    if says(line, "dpi"@, "auto"@) {
        lemma_obeyed(line, "auto"@, 33, 0, home, r);
    }
    if says(line, "dpi"@, ""@) {
        lemma_obeyed(line, ""@, 33, 0, home, r);
    }
}

/// `:rotate` by degrees turns the page by that many quarters, whole turns left
/// out.
pub proof fn lemma_rotate_lines(
    line: Seq<char>,
    degrees: nat,
    home: Option<Seq<char>>,
    r: Result<ParsedCommand, CommandError>,
)
    requires
        commands::means(line, home, r),
        degrees <= i32::MAX,
        says(line, "rotate"@, text::decimal(degrees)),
    ensures
        r matches Ok(ParsedCommand::Nav(Action::SetRotation(rotation))) && {
            &&& degrees % 360 < 90 ==> rotation == Rotation::R0
            &&& 90 <= degrees % 360 < 180 ==> rotation == Rotation::R90
            &&& 180 <= degrees % 360 < 270 ==> rotation == Rotation::R180
            &&& 270 <= degrees % 360 ==> rotation == Rotation::R270
        },
{
    let arg = text::decimal(degrees);
    lemma_digits_read(degrees);
    text::lemma_decimal_reads_back(degrees);
    reveal_strlit("cw");
    reveal_strlit("ccw");
    assert(text::is_digit(arg[0]));
    assert("cw"@[0] == 'c' && "ccw"@[0] == 'c');
    lemma_obeyed(line, arg, 22, 0, home, r);
}

/// The numbers of `:zoom`, `:dpi` and `:quality`: the digits are kept as they
/// are written. A percent sign makes a zoom one in hundredths; a quality is one
/// in any case.
pub proof fn lemma_knob_lines(
    line: Seq<char>,
    n: nat,
    home: Option<Seq<char>>,
    r: Result<ParsedCommand, CommandError>,
)
    requires
        commands::means(line, home, r),
    ensures
        ({
            let arg = text::decimal(n);
            &&& says(line, "zoom"@, arg) ==> (r matches Ok(
                ParsedCommand::Number { knob, text, percent },
            ) && knob == Knob::Zoom && text@ == arg && !percent)
            &&& says(line, "zoom"@, arg.push('%')) ==> (r matches Ok(
                ParsedCommand::Number { knob, text, percent },
            ) && knob == Knob::Zoom && text@ == arg && percent)
            &&& says(line, "dpi"@, arg) ==> (r matches Ok(
                ParsedCommand::Number { knob, text, percent },
            ) && knob == Knob::Dpi && text@ == arg && !percent)
            &&& says(line, "quality"@, arg) || says(line, "quality"@, arg.push('%')) ==> (
            r matches Ok(ParsedCommand::Number { knob, text, percent }) && knob == Knob::Quality
                && text@ == arg && percent)
        }),
{
    let arg = text::decimal(n);
    let cent = arg.push('%');
    lemma_digits_read(n);
    text::lemma_decimal_reads_back(n);
    commands_laws::lemma_digits_are_a_float(arg);
    assert(text::is_digit(arg[0]) && text::is_digit(arg.last()));
    assert(cent[0] == arg[0] && cent.last() == '%');
    lemma_untrimmed(cent);
    assert(cent.drop_last() =~= arg);
    assert(commands::without_percent(cent) == arg);
    lemma_not_a_fit(arg);
    lemma_not_a_fit(cent);
    reveal_strlit("auto");
    assert("auto"@[0] == 'a');
    if says(line, "zoom"@, arg) {
        lemma_obeyed(line, arg, 21, 0, home, r);
    }
    if says(line, "zoom"@, cent) {
        lemma_obeyed(line, cent, 21, 0, home, r);
    }
    if says(line, "dpi"@, arg) {
        lemma_obeyed(line, arg, 33, 0, home, r);
    }
    if says(line, "quality"@, arg) {
        lemma_obeyed(line, arg, 34, 0, home, r);
    }
    if says(line, "quality"@, cent) {
        lemma_obeyed(line, cent, 34, 0, home, r);
    }
}

/// What starts with a digit is none of the names of fits.
proof fn lemma_not_a_fit(s: Seq<char>)
    requires
        s.len() > 0,
        text::is_digit(s[0]),
    ensures
        commands::fit(s) is None,
{
    reveal_strlit("fit-w");
    assert("fit-w"@[0] == 'f');
    reveal_strlit("fitwidth");
    assert("fitwidth"@[0] == 'f');
    reveal_strlit("width");
    assert("width"@[0] == 'w');
    reveal_strlit("w");
    assert("w"@[0] == 'w');
    reveal_strlit("fit-h");
    assert("fit-h"@[0] == 'f');
    reveal_strlit("fitheight");
    assert("fitheight"@[0] == 'f');
    reveal_strlit("height");
    assert("height"@[0] == 'h');
    reveal_strlit("h");
    assert("h"@[0] == 'h');
    reveal_strlit("fit-p");
    assert("fit-p"@[0] == 'f');
    reveal_strlit("fitpage");
    assert("fitpage"@[0] == 'f');
    reveal_strlit("page");
    assert("page"@[0] == 'p');
    reveal_strlit("p");
    assert("p"@[0] == 'p');
}

/// A knob's number sets what the command is for: the zoom, the resolution or
/// the quality, which is kept between a tenth and two.
pub proof fn lemma_knobs(value: Real32)
    ensures
        commands::set_to(Knob::Zoom, value) == ParsedCommand::Nav(
            Action::SetZoom(ZoomMode::Custom(value)),
        ),
        commands::set_to(Knob::Dpi, value) == ParsedCommand::Nav(Action::SetRenderDpi(Some(value))),
        0x3DCC_CCCD <= value.bits <= 0x4000_0000 ==> commands::set_to(Knob::Quality, value)
            == ParsedCommand::Nav(Action::SetRenderQuality(value)),
        0x4000_0000 < value.bits <= 0x7F80_0000 ==> commands::set_to(Knob::Quality, value)
            == ParsedCommand::Nav(Action::SetRenderQuality(Real32 { bits: 0x4000_0000 })),
        value.bits < 0x3DCC_CCCD ==> commands::set_to(Knob::Quality, value) == ParsedCommand::Nav(
            Action::SetRenderQuality(Real32 { bits: 0x3DCC_CCCD }),
        ),
{
}

/// `:delmark` takes the one letter that follows, and nothing else.
pub proof fn lemma_delmark_lines(
    line: Seq<char>,
    arg: Seq<char>,
    home: Option<Seq<char>>,
    r: Result<ParsedCommand, CommandError>,
)
    requires
        commands::means(line, home, r),
        says(line, "delmark"@, arg),
        text::trimmed(arg) == arg,
    ensures
        arg.len() == 1 && ('a' <= arg[0] <= 'z' || 'A' <= arg[0] <= 'Z') ==> gives(
            r,
            ParsedCommand::DeleteMark(arg[0]),
        ),
        arg.len() != 1 || '0' <= arg[0] <= '9' ==> complains(r),
{
    lemma_obeyed(line, arg, 44, 0, home, r);
}

} // verus!
