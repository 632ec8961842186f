//! Command lines: lookup, completion and parsing.
use vstd::prelude::*;

use crate::command_table::{self, all_commands, Command, Verb};
use crate::commands_laws;
use crate::navigator::Action;
use crate::number::{Real32, ONE_TENTH, TWO};
use crate::text::{
    self, from_chars, letter, parse_i32, parse_usize, push_str, same, starts_with, to_chars,
    trim_range,
};
use crate::viewport::{Rotation, ZoomMode};

verus! {

/// Orientation for a split.
#[derive(Debug, Clone, Copy, PartialEq, Eq, Structural)]
pub enum SplitDirection {
    Horizontal,
    Vertical,
}

#[derive(Debug, Clone, Copy, PartialEq, Eq, Structural)]
pub enum ColorPalette {
    XTerm256,
    Grayscale,
}

/// A setting that takes a floating-point number.
#[derive(Debug, Clone, Copy, PartialEq, Eq, Structural)]
pub enum Knob {
    Zoom,
    Dpi,
    Quality,
}

/// Parsed, executable effect of a command.
#[derive(Debug, PartialEq, Eq)]
pub enum ParsedCommand {
    Nav(Action),
    /// A knob and the number to set it to, in text form; `percent` means the
    /// number is in hundredths. `number_command` gives the effect once the
    /// number's value is known.
    Number { knob: Knob, text: String, percent: bool },
    /// Hard-quit the entire application. `:qa`, `:qall`.
    Quit,
    /// Close the focused window; quit if it's the last one. `:close`, `:q`.
    CloseWindow,
    /// Close all other windows in the current tab. `:only`.
    OnlyWindow,
    /// Split the focused window. Without a file both show the same buffer.
    Split { direction: SplitDirection, file: Option<String> },
    /// Load a file into the current window. `:edit`, `:open`.
    Edit(String),
    /// `:Explore [path]`. With `split` a new split comes first.
    Explore { split: Option<SplitDirection>, path: Option<String> },
    /// `:tabnew [file]`.
    TabNew(Option<String>),
    TabClose,
    TabOnly,
    /// `:b <n>`: show buffer N in the current window.
    Buffer(usize),
    BufferNext,
    BufferPrev,
    /// `:tabmove N`: reorder the current tab relatively.
    TabMove(i32),
    /// `:resize N`: adjust the current window's height by N rows.
    Resize(i32),
    /// `:vresize N`: adjust the current window's width by N cols. Also
    /// produced by `:vertical resize N`.
    VResize(i32),
    Help,
    CacheSet(bool),
    CacheToggle,
    CacheSize(usize),
    /// `:ecache on|off`: controls the encoded-frame cache.
    ECacheSet(bool),
    ECacheToggle,
    ECacheSize(usize),
    Prefetch(usize),
    Reset,
    /// Pick the sixel palette.
    Colors(ColorPalette),
    /// Copy the focused window's current page to the clipboard.
    CopyPage,
    ToggleToc,
    /// `:marks`, `:bookmarks`.
    ToggleMarks,
    /// `:delmark <letter>`.
    DeleteMark(char),
    /// `:back`.
    JumpBack,
    /// `:forward`.
    JumpForward,
    /// `:mouse on|off`.
    MouseSet(bool),
    MouseToggle,
    /// `:text`: open the document's text in an editor.
    OpenTextEditor,
}

/// Why a command line was refused.
#[derive(Debug, PartialEq, Eq)]
pub enum CommandError {
    Empty,
    /// `:vertical` was followed by something other than `resize`.
    OnlyVerticalResize,
    Unknown { name: String },
    /// The argument does not suit the command; `got` quotes it where the
    /// message does.
    Usage { usage: &'static str, got: Option<String> },
}

/// Position of the first command in `vs` spelled that way.
pub open spec fn first_spelled(vs: Seq<Verb>, name: Seq<char>) -> Option<int>
    decreases vs.len(),
{
    if vs.len() == 0 {
        None
    } else if command_table::spellings(vs[0]).contains(name) {
        Some(0)
    } else {
        match first_spelled(vs.skip(1), name) {
            Some(i) => Some(i + 1),
            None => None,
        }
    }
}

pub(crate) proof fn lemma_first_spelled(vs: Seq<Verb>, name: Seq<char>, i: int)
    requires
        0 <= i <= vs.len(),
        forall|k: int|
            0 <= k < i ==> !command_table::spellings(#[trigger] vs[k]).contains(name),
        i < vs.len() ==> command_table::spellings(vs[i]).contains(name),
    ensures
        first_spelled(vs, name) == (if i < vs.len() {
            Some(i)
        } else {
            None
        }),
    decreases vs.len(),
{
    if i > 0 {
        assert(!command_table::spellings(vs[0]).contains(name));
        let rest = vs.skip(1);
        assert forall|k: int| 0 <= k < i - 1 implies !command_table::spellings(
            #[trigger] rest[k],
        ).contains(name) by {
            assert(rest[k] == vs[k + 1]);
        }
        if i < vs.len() {
            assert(rest[i - 1] == vs[i]);
        }
        lemma_first_spelled(rest, name, i - 1);
    }
}

/// The command has a spelling that starts that way.
pub open spec fn completes(verb: Verb, prefix: Seq<char>) -> bool {
    exists|i: int|
        0 <= i < command_table::spellings(verb).len() && prefix.is_prefix_of(
            #[trigger] command_table::spellings(verb)[i],
        )
}

/// A command line with vim's `vertical resize` written as `vresize`; `None`
/// where `vertical` comes before anything else.
pub open spec fn rewritten(line: Seq<char>) -> Option<Seq<char>> {
    if "vertical "@.is_prefix_of(line) {
        let rest = text::trim_left(line.skip("vertical "@.len() as int));
        if "resize"@.is_prefix_of(rest) {
            Some("vresize"@ + rest.skip("resize"@.len() as int))
        } else {
            None
        }
    } else {
        Some(line)
    }
}

/// The word that a line starts with.
pub open spec fn command_word(line: Seq<char>) -> Seq<char> {
    line.take(text::word_len(line) as int)
}

/// What follows the first word and the white space after it.
pub open spec fn command_arg(line: Seq<char>) -> Seq<char> {
    if text::word_len(line) < line.len() {
        text::trimmed(line.skip(text::word_len(line) as int + 1))
    } else {
        Seq::empty()
    }
}

/// `rest` below the directory `base`; an absolute `rest` stands alone.
pub open spec fn joined(base: Seq<char>, rest: Seq<char>) -> Seq<char> {
    if rest.len() > 0 && rest[0] == '/' {
        rest
    } else if base.len() == 0 || base.last() == '/' {
        base + rest
    } else {
        base.push('/') + rest
    }
}

/// A path with a leading `~/` replaced by the home directory.
pub open spec fn expanded(path: Seq<char>, home: Option<Seq<char>>) -> Seq<char> {
    if home is Some && "~/"@.is_prefix_of(path) {
        joined(home->0, path.skip("~/"@.len() as int))
    } else {
        path
    }
}

/// The home directory's text.
pub open spec fn home_view(home: Option<&str>) -> Option<Seq<char>> {
    match home {
        Some(h) => Some(h@),
        None => None,
    }
}

/// `file` is the path that an argument names: none where it is empty.
pub open spec fn names_path(file: Option<String>, arg: Seq<char>, home: Option<Seq<char>>) -> bool {
    if text::trimmed(arg).len() == 0 {
        file is None
    } else {
        file matches Some(s) && s@ == expanded(text::trimmed(arg), home)
    }
}

/// What `on`, `off`, `toggle` or nothing switches to; `Some(None)` toggles.
pub open spec fn switch(arg: Seq<char>) -> Option<Option<bool>> {
    if arg == "on"@ {
        Some(Some(true))
    } else if arg == "off"@ {
        Some(Some(false))
    } else if arg == "toggle"@ || arg == ""@ {
        Some(None)
    } else {
        None
    }
}

/// A signed number in which one more plus sign is allowed.
pub open spec fn signed_arg(arg: Seq<char>) -> Option<int> {
    let t = text::trimmed(arg);
    if t.len() > 0 && t[0] == '+' {
        text::signed_of(t.skip(1), i32::MIN as int, i32::MAX as int)
    } else {
        text::signed_of(t, i32::MIN as int, i32::MAX as int)
    }
}

/// `s` without percent signs at its end.
pub open spec fn without_percent(s: Seq<char>) -> Seq<char>
    decreases s.len(),
{
    if s.len() > 0 && s.last() == '%' {
        without_percent(s.drop_last())
    } else {
        s
    }
}

/// The fit that a zoom argument names.
pub open spec fn fit(arg: Seq<char>) -> Option<ZoomMode> {
    if arg == "fit-w"@ || arg == "fitwidth"@ || arg == "width"@ || arg == "w"@ {
        Some(ZoomMode::FitWidth)
    } else if arg == "fit-h"@ || arg == "fitheight"@ || arg == "height"@ || arg == "h"@ {
        Some(ZoomMode::FitHeight)
    } else if arg == "fit-p"@ || arg == "fitpage"@ || arg == "page"@ || arg == "p"@ {
        Some(ZoomMode::FitPage)
    } else {
        None
    }
}

/// The palette that an argument names.
pub open spec fn palette(arg: Seq<char>) -> Option<ColorPalette> {
    if arg == "xterm256"@ || arg == "256"@ || arg == "color"@ {
        Some(ColorPalette::XTerm256)
    } else if arg == "gray"@ || arg == "grey"@ || arg == "grayscale"@ || arg == "g8"@ {
        Some(ColorPalette::Grayscale)
    } else {
        None
    }
}

/// `r` refuses the argument with that usage, quoting nothing.
pub open spec fn refused(r: Result<ParsedCommand, CommandError>, usage: Seq<char>) -> bool {
    r matches Err(CommandError::Usage { usage: u, got }) && u@ == usage && got is None
}

/// `r` refuses the argument with that usage, quoting `arg`.
pub open spec fn refused_quoting(
    r: Result<ParsedCommand, CommandError>,
    usage: Seq<char>,
    arg: Seq<char>,
) -> bool {
    r matches Err(CommandError::Usage { usage: u, got }) && u@ == usage && (got matches Some(g)
        && g@ == arg)
}

/// `r` sets a knob to the number written as `number`.
pub open spec fn sets(
    r: Result<ParsedCommand, CommandError>,
    knob: Knob,
    number: Seq<char>,
    percent: bool,
) -> bool {
    r matches Ok(ParsedCommand::Number { knob: k, text, percent: p }) && k == knob && text@ == number
        && p == percent
}

/// `r` is what a command does with its argument.
pub open spec fn obeys(
    verb: Verb,
    arg: Seq<char>,
    home: Option<Seq<char>>,
    r: Result<ParsedCommand, CommandError>,
) -> bool {
    let number = text::unsigned_of(arg, usize::MAX as nat);
    match verb {
        Verb::QuitAll => r == Ok::<_, CommandError>(ParsedCommand::Quit),
        Verb::Quit | Verb::Close => r == Ok::<_, CommandError>(ParsedCommand::CloseWindow),
        Verb::Only => r == Ok::<_, CommandError>(ParsedCommand::OnlyWindow),
        Verb::Split => r matches Ok(ParsedCommand::Split { direction, file }) && direction
            == SplitDirection::Horizontal && names_path(file, arg, home),
        Verb::VSplit => r matches Ok(ParsedCommand::Split { direction, file }) && direction
            == SplitDirection::Vertical && names_path(file, arg, home),
        Verb::Edit => if text::trimmed(arg).len() == 0 {
            refused(r, ":edit wants a path"@)
        } else {
            r matches Ok(ParsedCommand::Edit(p)) && names_path(Some(p), arg, home)
        },
        Verb::Open => if text::trimmed(arg).len() == 0 {
            refused(r, ":open wants a path"@)
        } else {
            r matches Ok(ParsedCommand::Edit(p)) && names_path(Some(p), arg, home)
        },
        Verb::Explore => r matches Ok(ParsedCommand::Explore { split, path }) && split is None
            && names_path(path, arg, home),
        Verb::Sexplore => r matches Ok(ParsedCommand::Explore { split, path }) && split == Some(
            SplitDirection::Horizontal,
        ) && names_path(path, arg, home),
        Verb::Vexplore => r matches Ok(ParsedCommand::Explore { split, path }) && split == Some(
            SplitDirection::Vertical,
        ) && names_path(path, arg, home),
        Verb::TabNew => r matches Ok(ParsedCommand::TabNew(file)) && names_path(file, arg, home),
        Verb::TabClose => r == Ok::<_, CommandError>(ParsedCommand::TabClose),
        Verb::TabOnly => r == Ok::<_, CommandError>(ParsedCommand::TabOnly),
        Verb::Buffer => match number {
            Some(n) => r == Ok::<_, CommandError>(ParsedCommand::Buffer(n as usize)),
            None => refused(r, ":b wants a buffer index"@),
        },
        Verb::BufferNext => r == Ok::<_, CommandError>(ParsedCommand::BufferNext),
        Verb::BufferPrev => r == Ok::<_, CommandError>(ParsedCommand::BufferPrev),
        Verb::TabMove => match signed_arg(arg) {
            Some(n) => r == Ok::<_, CommandError>(ParsedCommand::TabMove(n as i32)),
            None => refused(r, ":tabmove wants +N, -N, or N"@),
        },
        Verb::Resize => match signed_arg(arg) {
            Some(n) => r == Ok::<_, CommandError>(ParsedCommand::Resize(n as i32)),
            None => refused(r, ":resize wants +N, -N, or N"@),
        },
        Verb::VResize => match signed_arg(arg) {
            Some(n) => r == Ok::<_, CommandError>(ParsedCommand::VResize(n as i32)),
            None => refused(r, ":vresize wants +N, -N, or N"@),
        },
        Verb::Help => r == Ok::<_, CommandError>(ParsedCommand::Help),
        Verb::Goto => match number {
            Some(n) => r == Ok::<_, CommandError>(
                ParsedCommand::Nav(
                    Action::GotoPage(
                        if n == 0 {
                            0
                        } else {
                            (n - 1) as usize
                        },
                    ),
                ),
            ),
            None => refused(r, ":goto N requires a number"@),
        },
        Verb::First => r == Ok::<_, CommandError>(ParsedCommand::Nav(Action::FirstPage)),
        Verb::Last => r == Ok::<_, CommandError>(ParsedCommand::Nav(Action::LastPage)),
        Verb::Next => r == Ok::<_, CommandError>(ParsedCommand::Nav(Action::NextPage)),
        Verb::Prev => r == Ok::<_, CommandError>(ParsedCommand::Nav(Action::PrevPage)),
        Verb::Top => r == Ok::<_, CommandError>(ParsedCommand::Nav(Action::PageTop)),
        Verb::Bottom => r == Ok::<_, CommandError>(ParsedCommand::Nav(Action::PageBottom)),
        Verb::Middle => r == Ok::<_, CommandError>(ParsedCommand::Nav(Action::PageMiddle)),
        Verb::Reset => r == Ok::<_, CommandError>(ParsedCommand::Reset),
        Verb::Zoom => match fit(arg) {
            Some(zoom) => r == Ok::<_, CommandError>(ParsedCommand::Nav(Action::SetZoom(zoom))),
            None => if text::is_float(without_percent(arg)) {
                sets(r, Knob::Zoom, without_percent(arg), arg.len() > 0 && arg.last() == '%')
            } else {
                refused_quoting(r, ":zoom wants fit-w|fit-h|fit-p|NN%"@, arg)
            },
        },
        Verb::Rotate => if arg == "cw"@ {
            r == Ok::<_, CommandError>(ParsedCommand::Nav(Action::RotateCw))
        } else if arg == "ccw"@ {
            r == Ok::<_, CommandError>(ParsedCommand::Nav(Action::RotateCcw))
        } else {
            match text::signed_of(arg, i32::MIN as int, i32::MAX as int) {
                Some(n) => r matches Ok(ParsedCommand::Nav(Action::SetRotation(rotation)))
                    && rotation.quarters() == (n % 360) / 90,
                None => refused(r, ":rotate wants 0|90|180|270 or cw|ccw"@),
            }
        },
        Verb::Night => match switch(arg) {
            Some(Some(b)) => r == Ok::<_, CommandError>(ParsedCommand::Nav(Action::SetNight(b))),
            Some(None) => r == Ok::<_, CommandError>(ParsedCommand::Nav(Action::ToggleNight)),
            None => refused_quoting(r, ":night wants on|off|toggle"@, arg),
        },
        Verb::Dpi => if arg == "auto"@ || arg.len() == 0 {
            r == Ok::<_, CommandError>(ParsedCommand::Nav(Action::SetRenderDpi(None)))
        } else if text::is_float(arg) {
            sets(r, Knob::Dpi, arg, false)
        } else {
            refused(r, ":dpi wants a number or 'auto'"@)
        },
        Verb::Quality => if text::is_float(without_percent(arg)) {
            sets(r, Knob::Quality, without_percent(arg), true)
        } else {
            refused(r, ":quality wants a percentage 10..200"@)
        },
        Verb::Cache => match switch(arg) {
            Some(Some(b)) => r == Ok::<_, CommandError>(ParsedCommand::CacheSet(b)),
            Some(None) => r == Ok::<_, CommandError>(ParsedCommand::CacheToggle),
            None => refused_quoting(r, ":cache wants on|off|toggle"@, arg),
        },
        Verb::CacheSize => match number {
            Some(n) => r == Ok::<_, CommandError>(
                ParsedCommand::CacheSize(
                    if n < 1 {
                        1
                    } else {
                        n as usize
                    },
                ),
            ),
            None => refused(r, ":cache-size wants a positive integer"@),
        },
        Verb::ECache => match switch(arg) {
            Some(Some(b)) => r == Ok::<_, CommandError>(ParsedCommand::ECacheSet(b)),
            Some(None) => r == Ok::<_, CommandError>(ParsedCommand::ECacheToggle),
            None => refused_quoting(r, ":ecache wants on|off|toggle"@, arg),
        },
        Verb::ECacheSize => match number {
            Some(n) => r == Ok::<_, CommandError>(
                ParsedCommand::ECacheSize(
                    if n < 1 {
                        1
                    } else {
                        n as usize
                    },
                ),
            ),
            None => refused(r, ":ecache-size wants a positive integer"@),
        },
        Verb::Prefetch => match number {
            Some(n) => r == Ok::<_, CommandError>(ParsedCommand::Prefetch(n as usize)),
            None => refused(r, ":prefetch wants a non-negative integer"@),
        },
        Verb::Colors => match palette(arg) {
            Some(p) => r == Ok::<_, CommandError>(ParsedCommand::Colors(p)),
            None => refused_quoting(r, ":colors wants xterm256|gray"@, arg),
        },
        Verb::Copy => r == Ok::<_, CommandError>(ParsedCommand::CopyPage),
        Verb::Toc => r == Ok::<_, CommandError>(ParsedCommand::ToggleToc),
        Verb::Marks => r == Ok::<_, CommandError>(ParsedCommand::ToggleMarks),
        Verb::DelMark => if arg.len() == 1 && text::is_letter(arg[0]) {
            r == Ok::<_, CommandError>(ParsedCommand::DeleteMark(arg[0]))
        } else {
            refused(r, ":delmark wants a letter"@)
        },
        Verb::Back => r == Ok::<_, CommandError>(ParsedCommand::JumpBack),
        Verb::Forward => r == Ok::<_, CommandError>(ParsedCommand::JumpForward),
        Verb::Mouse => match switch(arg) {
            Some(Some(b)) => r == Ok::<_, CommandError>(ParsedCommand::MouseSet(b)),
            Some(None) => r == Ok::<_, CommandError>(ParsedCommand::MouseToggle),
            None => refused_quoting(r, ":mouse wants on|off|toggle"@, arg),
        },
        Verb::Text => r == Ok::<_, CommandError>(ParsedCommand::OpenTextEditor),
    }
}

/// `r` is what a whole command line means.
pub open spec fn means(
    line: Seq<char>,
    home: Option<Seq<char>>,
    r: Result<ParsedCommand, CommandError>,
) -> bool {
    let t = text::trimmed(line);
    if t.len() == 0 {
        r == Err::<ParsedCommand, _>(CommandError::Empty)
    } else {
        match rewritten(t) {
            None => r == Err::<ParsedCommand, _>(CommandError::OnlyVerticalResize),
            Some(s) => match first_spelled(command_table::verbs(), command_word(s)) {
                None => r matches Err(CommandError::Unknown { name }) && name@ == command_word(s),
                Some(i) => obeys(command_table::verbs()[i], command_arg(s), home, r),
            },
        }
    }
}

/// The effect of setting a knob to a number.
pub open spec fn set_to(knob: Knob, value: Real32) -> ParsedCommand {
    ParsedCommand::Nav(
        match knob {
            Knob::Zoom => Action::SetZoom(ZoomMode::Custom(value)),
            Knob::Dpi => Action::SetRenderDpi(Some(value)),
            Knob::Quality => Action::SetRenderQuality(
                value.clamped(Real32 { bits: ONE_TENTH }, Real32 { bits: TWO }),
            ),
        },
    )
}

/// The effect of setting a knob to the value of its number.
pub fn number_command(knob: Knob, value: Real32) -> (c: ParsedCommand)
    ensures
        c == set_to(knob, value),
{
    ParsedCommand::Nav(
        match knob {
            Knob::Zoom => Action::SetZoom(ZoomMode::Custom(value)),
            Knob::Dpi => Action::SetRenderDpi(Some(value)),
            Knob::Quality => Action::SetRenderQuality(
                value.clamp(Real32 { bits: ONE_TENTH }, Real32 { bits: TWO }),
            ),
        },
    )
}

/// `rest` below the directory `base`; an absolute `rest` stands alone.
pub fn join(base: &str, rest: &str) -> (r: String)
    ensures
        r@ == joined(base@, rest@),
{
    let bs: Vec<char> = to_chars(base);
    let rs: Vec<char> = to_chars(rest);
    if rs.len() > 0 && rs[0] == '/' {
        return text::owned(rest);
    }
    let mut r: String = text::owned(base);
    if bs.len() > 0 && bs[bs.len() - 1] != '/' {
        r.push('/');
    }
    push_str(&mut r, rest);
    r
}

fn opt_path(arg: &str, home: Option<&str>) -> (file: Option<String>)
    ensures
        names_path(file, arg@, home_view(home)),
{
    let cs: Vec<char> = to_chars(arg);
    assert(cs@.subrange(0, cs@.len() as int) == cs@);
    let (from, to): (usize, usize) = trim_range(&cs, 0, cs.len());
    if from == to {
        return None;
    }
    let ghost path = text::trimmed(arg@);
    if let Some(h) = home {
        if starts_with(&cs, from, to, "~/") {
            proof {
                reveal_strlit("~/");
            }
            assert(path.skip(2) == cs@.subrange(from + 2, to as int));
            let rest: String = from_chars(&cs, from + 2, to);
            return Some(join(h, rest.as_str()));
        }
    }
    Some(from_chars(&cs, from, to))
}

fn switch_of(arg: &str) -> (r: Option<Option<bool>>)
    ensures
        r == switch(arg@),
{
    if same(arg, "on") {
        Some(Some(true))
    } else if same(arg, "off") {
        Some(Some(false))
    } else if same(arg, "toggle") || same(arg, "") {
        Some(None)
    } else {
        None
    }
}

fn parse_signed(arg: &str) -> (r: Option<i32>)
    ensures
        r == (match signed_arg(arg@) {
            Some(n) => Some(n as i32),
            None => None,
        }),
{
    let cs: Vec<char> = to_chars(arg);
    assert(cs@.subrange(0, cs@.len() as int) == cs@);
    let (from, to): (usize, usize) = trim_range(&cs, 0, cs.len());
    let ghost t = text::trimmed(arg@);
    if from < to && cs[from] == '+' {
        assert(t[0] == cs@[from as int]);
        assert(t.skip(1) == cs@.subrange(from + 1, to as int));
        parse_i32(&cs, from + 1, to)
    } else {
        if from < to {
            assert(t[0] == cs@[from as int]);
        }
        parse_i32(&cs, from, to)
    }
}

fn parse_count(arg: &str) -> (r: Option<usize>)
    ensures
        r == (match text::unsigned_of(arg@, usize::MAX as nat) {
            Some(n) => Some(n as usize),
            None => None,
        }),
{
    let cs: Vec<char> = to_chars(arg);
    assert(cs@.subrange(0, cs@.len() as int) == cs@);
    parse_usize(&cs, 0, cs.len())
}

fn fit_of(arg: &str) -> (r: Option<ZoomMode>)
    ensures
        r == fit(arg@),
{
    if same(arg, "fit-w") || same(arg, "fitwidth") || same(arg, "width") || same(arg, "w") {
        Some(ZoomMode::FitWidth)
    } else if same(arg, "fit-h") || same(arg, "fitheight") || same(arg, "height") || same(
        arg,
        "h",
    ) {
        Some(ZoomMode::FitHeight)
    } else if same(arg, "fit-p") || same(arg, "fitpage") || same(arg, "page") || same(arg, "p") {
        Some(ZoomMode::FitPage)
    } else {
        None
    }
}

fn palette_of(arg: &str) -> (r: Option<ColorPalette>)
    ensures
        r == palette(arg@),
{
    if same(arg, "xterm256") || same(arg, "256") || same(arg, "color") {
        Some(ColorPalette::XTerm256)
    } else if same(arg, "gray") || same(arg, "grey") || same(arg, "grayscale") || same(arg, "g8") {
        Some(ColorPalette::Grayscale)
    } else {
        None
    }
}

/// The number in an argument, as text, and whether percent signs followed it.
fn number_text(arg: &str) -> (r: (Option<String>, bool))
    ensures
        r.1 == (arg@.len() > 0 && arg@.last() == '%'),
        r.0 is Some <==> text::is_float(without_percent(arg@)),
        r.0 matches Some(s) ==> s@ == without_percent(arg@),
{
    let cs: Vec<char> = to_chars(arg);
    let n: usize = cs.len();
    let percent: bool = n > 0 && cs[n - 1] == '%';
    let mut to: usize = n;
    assert(cs@.take(n as int) == arg@);
    while to > 0 && cs[to - 1] == '%'
        invariant
            to <= n == cs@.len(),
            without_percent(cs@.take(to as int)) == without_percent(arg@),
        decreases to,
    {
        assert(cs@.take(to as int).last() == '%');
        assert(cs@.take(to as int).drop_last() == cs@.take(to - 1));
        to -= 1;
    }
    proof {
        if to > 0 {
            assert(cs@.take(to as int).last() != '%');
        }
        assert(cs@.take(to as int) == cs@.subrange(0, to as int));
    }
    if text::float(&cs, 0, to) {
        (Some(from_chars(&cs, 0, to)), percent)
    } else {
        (None, percent)
    }
}

fn usage(wants: &'static str) -> (r: Result<ParsedCommand, CommandError>)
    ensures
        refused(r, wants@),
{
    Err(CommandError::Usage { usage: wants, got: None })
}

fn usage_quoting(wants: &'static str, arg: &str) -> (r: Result<ParsedCommand, CommandError>)
    ensures
        refused_quoting(r, wants@, arg@),
{
    Err(CommandError::Usage { usage: wants, got: Some(text::owned(arg)) })
}

/// What a command does with its argument. It succeeds exactly where the
/// argument suits the command, so with every argument of a kind that the table
/// lists.
#[verifier::rlimit(40)]
pub fn parse_command(cmd: &Command, arg: &str, home: Option<&str>) -> (r: Result<
    ParsedCommand,
    CommandError,
>)
    ensures
        obeys(cmd.verb, arg@, home_view(home), r),
        r is Ok <==> commands_laws::suits(cmd.verb, arg@),
        commands_laws::listed(cmd.verb, arg@) ==> r is Ok,
{
    let r = match cmd.verb {
        Verb::QuitAll => Ok(ParsedCommand::Quit),
        Verb::Quit => Ok(ParsedCommand::CloseWindow),
        Verb::Close => Ok(ParsedCommand::CloseWindow),
        Verb::Only => Ok(ParsedCommand::OnlyWindow),
        Verb::Split => Ok(
            ParsedCommand::Split {
                direction: SplitDirection::Horizontal,
                file: opt_path(arg, home),
            },
        ),
        Verb::VSplit => Ok(
            ParsedCommand::Split { direction: SplitDirection::Vertical, file: opt_path(arg, home) },
        ),
        Verb::Edit => match opt_path(arg, home) {
            Some(p) => Ok(ParsedCommand::Edit(p)),
            None => usage(":edit wants a path"),
        },
        Verb::Open => match opt_path(arg, home) {
            Some(p) => Ok(ParsedCommand::Edit(p)),
            None => usage(":open wants a path"),
        },
        Verb::Explore => Ok(ParsedCommand::Explore { split: None, path: opt_path(arg, home) }),
        Verb::Sexplore => Ok(
            ParsedCommand::Explore {
                split: Some(SplitDirection::Horizontal),
                path: opt_path(arg, home),
            },
        ),
        Verb::Vexplore => Ok(
            ParsedCommand::Explore {
                split: Some(SplitDirection::Vertical),
                path: opt_path(arg, home),
            },
        ),
        Verb::TabNew => Ok(ParsedCommand::TabNew(opt_path(arg, home))),
        Verb::TabClose => Ok(ParsedCommand::TabClose),
        Verb::TabOnly => Ok(ParsedCommand::TabOnly),
        Verb::Buffer => match parse_count(arg) {
            Some(n) => Ok(ParsedCommand::Buffer(n)),
            None => usage(":b wants a buffer index"),
        },
        Verb::BufferNext => Ok(ParsedCommand::BufferNext),
        Verb::BufferPrev => Ok(ParsedCommand::BufferPrev),
        Verb::TabMove => match parse_signed(arg) {
            Some(n) => Ok(ParsedCommand::TabMove(n)),
            None => usage(":tabmove wants +N, -N, or N"),
        },
        Verb::Resize => match parse_signed(arg) {
            Some(n) => Ok(ParsedCommand::Resize(n)),
            None => usage(":resize wants +N, -N, or N"),
        },
        Verb::VResize => match parse_signed(arg) {
            Some(n) => Ok(ParsedCommand::VResize(n)),
            None => usage(":vresize wants +N, -N, or N"),
        },
        Verb::Help => Ok(ParsedCommand::Help),
        Verb::Goto => match parse_count(arg) {
            Some(n) => Ok(ParsedCommand::Nav(Action::GotoPage(n.saturating_sub(1)))),
            None => usage(":goto N requires a number"),
        },
        Verb::First => Ok(ParsedCommand::Nav(Action::FirstPage)),
        Verb::Last => Ok(ParsedCommand::Nav(Action::LastPage)),
        Verb::Next => Ok(ParsedCommand::Nav(Action::NextPage)),
        Verb::Prev => Ok(ParsedCommand::Nav(Action::PrevPage)),
        Verb::Top => Ok(ParsedCommand::Nav(Action::PageTop)),
        Verb::Bottom => Ok(ParsedCommand::Nav(Action::PageBottom)),
        Verb::Middle => Ok(ParsedCommand::Nav(Action::PageMiddle)),
        Verb::Reset => Ok(ParsedCommand::Reset),
        Verb::Zoom => match fit_of(arg) {
            Some(zoom) => Ok(ParsedCommand::Nav(Action::SetZoom(zoom))),
            None => match number_text(arg) {
                (Some(text), percent) => Ok(
                    ParsedCommand::Number { knob: Knob::Zoom, text, percent },
                ),
                (None, _) => usage_quoting(":zoom wants fit-w|fit-h|fit-p|NN%", arg),
            },
        },
        Verb::Rotate => {
            if same(arg, "cw") {
                Ok(ParsedCommand::Nav(Action::RotateCw))
            } else if same(arg, "ccw") {
                Ok(ParsedCommand::Nav(Action::RotateCcw))
            } else {
                let cs: Vec<char> = to_chars(arg);
                assert(cs@.subrange(0, cs@.len() as int) == cs@);
                match parse_i32(&cs, 0, cs.len()) {
                    Some(n) => Ok(
                        ParsedCommand::Nav(Action::SetRotation(Rotation::from_degrees(n))),
                    ),
                    None => usage(":rotate wants 0|90|180|270 or cw|ccw"),
                }
            }
        },
        Verb::Night => match switch_of(arg) {
            Some(Some(b)) => Ok(ParsedCommand::Nav(Action::SetNight(b))),
            Some(None) => Ok(ParsedCommand::Nav(Action::ToggleNight)),
            None => usage_quoting(":night wants on|off|toggle", arg),
        },
        Verb::Dpi => {
            let cs: Vec<char> = to_chars(arg);
            assert(cs@.subrange(0, cs@.len() as int) == cs@);
            if cs.len() == 0 || same(arg, "auto") {
                Ok(ParsedCommand::Nav(Action::SetRenderDpi(None)))
            } else if text::float(&cs, 0, cs.len()) {
                Ok(
                    ParsedCommand::Number {
                        knob: Knob::Dpi,
                        text: text::owned(arg),
                        percent: false,
                    },
                )
            } else {
                usage(":dpi wants a number or 'auto'")
            }
        },
        Verb::Quality => match number_text(arg) {
            (Some(text), _) => Ok(
                ParsedCommand::Number { knob: Knob::Quality, text, percent: true },
            ),
            (None, _) => usage(":quality wants a percentage 10..200"),
        },
        Verb::Cache => match switch_of(arg) {
            Some(Some(b)) => Ok(ParsedCommand::CacheSet(b)),
            Some(None) => Ok(ParsedCommand::CacheToggle),
            None => usage_quoting(":cache wants on|off|toggle", arg),
        },
        Verb::CacheSize => match parse_count(arg) {
            Some(n) => Ok(
                ParsedCommand::CacheSize(
                    if n < 1 {
                        1
                    } else {
                        n
                    },
                ),
            ),
            None => usage(":cache-size wants a positive integer"),
        },
        Verb::ECache => match switch_of(arg) {
            Some(Some(b)) => Ok(ParsedCommand::ECacheSet(b)),
            Some(None) => Ok(ParsedCommand::ECacheToggle),
            None => usage_quoting(":ecache wants on|off|toggle", arg),
        },
        Verb::ECacheSize => match parse_count(arg) {
            Some(n) => Ok(
                ParsedCommand::ECacheSize(
                    if n < 1 {
                        1
                    } else {
                        n
                    },
                ),
            ),
            None => usage(":ecache-size wants a positive integer"),
        },
        Verb::Prefetch => match parse_count(arg) {
            Some(n) => Ok(ParsedCommand::Prefetch(n)),
            None => usage(":prefetch wants a non-negative integer"),
        },
        Verb::Colors => match palette_of(arg) {
            Some(p) => Ok(ParsedCommand::Colors(p)),
            None => usage_quoting(":colors wants xterm256|gray", arg),
        },
        Verb::Copy => Ok(ParsedCommand::CopyPage),
        Verb::Toc => Ok(ParsedCommand::ToggleToc),
        Verb::Marks => Ok(ParsedCommand::ToggleMarks),
        Verb::DelMark => {
            let cs: Vec<char> = to_chars(arg);
            if cs.len() == 1 && letter(cs[0]) {
                Ok(ParsedCommand::DeleteMark(cs[0]))
            } else {
                usage(":delmark wants a letter")
            }
        },
        Verb::Back => Ok(ParsedCommand::JumpBack),
        Verb::Forward => Ok(ParsedCommand::JumpForward),
        Verb::Mouse => match switch_of(arg) {
            Some(Some(b)) => Ok(ParsedCommand::MouseSet(b)),
            Some(None) => Ok(ParsedCommand::MouseToggle),
            None => usage_quoting(":mouse wants on|off|toggle", arg),
        },
        Verb::Text => Ok(ParsedCommand::OpenTextEditor),
    };
    proof {
        if commands_laws::listed(cmd.verb, arg@) {
            commands_laws::lemma_every_command_is_parsed(cmd.verb, arg@, home_view(home), r);
        }
    }
    r
}

/// The commands and the ways to find them.
#[derive(Debug)]
pub struct CommandRegistry {
    commands: Vec<Command>,
}

impl Default for CommandRegistry {
    fn default() -> (r: CommandRegistry) {
        CommandRegistry { commands: all_commands() }
    }
}

impl CommandRegistry {
    /// The registry holds the whole table, in order.
    #[verifier::type_invariant]
    spec fn complete_table(self) -> bool {
        &&& self.commands@.len() == command_table::verbs().len()
        &&& forall|i: int|
            0 <= i < command_table::verbs().len() ==> (#[trigger] self.commands@[i]).verb
                == command_table::verbs()[i] && self.commands@[i].faithful()
    }

    /// All commands, in order.
    pub fn commands(&self) -> (r: &Vec<Command>)
        ensures
            r@.len() == command_table::verbs().len(),
            forall|i: int|
                0 <= i < r@.len() ==> (#[trigger] r@[i]).verb == command_table::verbs()[i]
                    && r@[i].faithful(),
    {
        proof {
            use_type_invariant(self);
        }
        &self.commands
    }

    /// The first command with that name or short form.
    pub fn lookup(&self, name: &str) -> (r: Option<&Command>)
        ensures
            match first_spelled(command_table::verbs(), name@) {
                Some(i) => r matches Some(c) && c.verb == command_table::verbs()[i]
                    && c.faithful(),
                None => r is None,
            },
    {
        proof {
            use_type_invariant(self);
        }
        let n: usize = self.commands.len();
        let mut i: usize = 0;
        while i < n
            invariant
                i <= n,
                n == self.commands@.len() == command_table::verbs().len(),
                forall|k: int|
                    0 <= k < n ==> (#[trigger] self.commands@[k]).verb == command_table::verbs()[k]
                        && self.commands@[k].faithful(),
                forall|k: int|
                    0 <= k < i ==> !command_table::spellings(
                        #[trigger] command_table::verbs()[k],
                    ).contains(name@),
            decreases n - i,
        {
            assert(self.commands@[i as int].verb == command_table::verbs()[i as int]);
            if spelled(&self.commands[i], name) {
                proof {
                    lemma_first_spelled(command_table::verbs(), name@, i as int);
                }
                return Some(&self.commands[i]);
            }
            i += 1;
        }
        proof {
            lemma_first_spelled(command_table::verbs(), name@, i as int);
        }
        None
    }

    /// Commands whose name or a short form starts with `prefix`, in order.
    pub fn complete(&self, prefix: &str) -> (r: Vec<&Command>)
        ensures
            ({
                let hits = command_table::verbs().filter(|v: Verb| completes(v, prefix@));
                &&& r@.len() == hits.len()
                &&& forall|i: int|
                    0 <= i < hits.len() ==> (#[trigger] r@[i]).verb == hits[i] && r@[i].faithful()
            }),
    {
        proof {
            use_type_invariant(self);
        }
        let n: usize = self.commands.len();
        let mut r: Vec<&Command> = Vec::new();
        let mut i: usize = 0;
        let ghost pred = |v: Verb| completes(v, prefix@);
        let ghost vs = command_table::verbs();
        proof {
            assert(vs.take(0) == Seq::<Verb>::empty());
            reveal(Seq::filter);
        }
        while i < n
            invariant
                i <= n,
                vs == command_table::verbs(),
                n == self.commands@.len() == vs.len(),
                pred == (|v: Verb| completes(v, prefix@)),
                forall|k: int|
                    0 <= k < n ==> (#[trigger] self.commands@[k]).verb == vs[k]
                        && self.commands@[k].faithful(),
                r@.len() == vs.take(i as int).filter(pred).len(),
                forall|k: int|
                    0 <= k < r@.len() ==> (#[trigger] r@[k]).verb == vs.take(i as int).filter(
                        pred,
                    )[k] && r@[k].faithful(),
            decreases n - i,
        {
            assert(self.commands@[i as int].verb == vs[i as int]);
            proof {
                let t = vs.take(i + 1);
                assert(t.drop_last() == vs.take(i as int));
                assert(t.last() == vs[i as int]);
                reveal(Seq::filter);
            }
            if spelled_from(&self.commands[i], prefix) {
                r.push(&self.commands[i]);
            }
            i += 1;
        }
        assert(vs.take(n as int) == vs);
        r
    }

    /// Parse a full command line like `zoom fit-w` or `goto 42`.
    ///
    /// `home` is the home directory, for paths that start with `~/`.
    pub fn parse(&self, line: &str, home: Option<&str>) -> (r: Result<ParsedCommand, CommandError>)
        ensures
            means(line@, home_view(home), r),
    {
        let all: Vec<char> = to_chars(line);
        assert(all@.subrange(0, all@.len() as int) == all@);
        let (from, to): (usize, usize) = trim_range(&all, 0, all.len());
        if from == to {
            return Err(CommandError::Empty);
        }
        let ghost t = text::trimmed(line@);
        let cs: Vec<char> = if starts_with(&all, from, to, "vertical ") {
            proof {
                reveal_strlit("vertical ");
                reveal_strlit("resize");
            }
            assert(t.skip(9) == all@.subrange(from + 9, to as int));
            let rest: usize = text::skip_white(&all, from + 9, to);
            if !starts_with(&all, rest, to, "resize") {
                return Err(CommandError::OnlyVerticalResize);
            }
            let ghost tail = all@.subrange(rest as int, to as int);
            assert(tail.skip(6) == all@.subrange(rest + 6, to as int));
            let mut s: String = text::owned("vresize");
            push_str(&mut s, from_chars(&all, rest + 6, to).as_str());
            to_chars(s.as_str())
        } else {
            to_chars(from_chars(&all, from, to).as_str())
        };
        let ghost s = cs@;
        assert(rewritten(t) == Some(s));
        let n: usize = cs.len();
        assert(cs@.subrange(0, n as int) == s);
        let end: usize = text::word_end(&cs, 0, n);
        let name: String = from_chars(&cs, 0, end);
        assert(name@ == command_word(s));
        let arg: String = if end < n {
            let (a, b): (usize, usize) = trim_range(&cs, end + 1, n);
            assert(cs@.subrange(end + 1, n as int) == s.skip(end + 1));
            from_chars(&cs, a, b)
        } else {
            String::new()
        };
        assert(arg@ == command_arg(s));
        match self.lookup(name.as_str()) {
            Some(cmd) => parse_command(cmd, arg.as_str(), home),
            None => Err(CommandError::Unknown { name }),
        }
    }
}

fn spelled(c: &Command, name: &str) -> (r: bool)
    requires
        c.faithful(),
    ensures
        r == command_table::spellings(c.verb).contains(name@),
{
    let ghost all = command_table::spellings(c.verb);
    if same(c.name, name) {
        assert(all[0] == name@);
        return true;
    }
    let mut i: usize = 0;
    while i < c.aliases.len()
        invariant
            i <= c.aliases@.len(),
            c.faithful(),
            all == command_table::spellings(c.verb),
            forall|k: int| 0 <= k <= i ==> #[trigger] all[k] != name@,
        decreases c.aliases@.len() - i,
    {
        if same(c.aliases[i], name) {
            assert(all[i + 1] == name@);
            return true;
        }
        i += 1;
    }
    false
}

fn spelled_from(c: &Command, prefix: &str) -> (r: bool)
    requires
        c.faithful(),
    ensures
        r == completes(c.verb, prefix@),
{
    let ghost all = command_table::spellings(c.verb);
    let name: Vec<char> = to_chars(c.name);
    assert(name@.subrange(0, name@.len() as int) == name@);
    if starts_with(&name, 0, name.len(), prefix) {
        assert(prefix@.is_prefix_of(all[0]));
        return true;
    }
    let mut i: usize = 0;
    while i < c.aliases.len()
        invariant
            i <= c.aliases@.len(),
            c.faithful(),
            all == command_table::spellings(c.verb),
            forall|k: int| 0 <= k <= i ==> !prefix@.is_prefix_of(#[trigger] all[k]),
        decreases c.aliases@.len() - i,
    {
        let alias: Vec<char> = to_chars(c.aliases[i]);
        assert(alias@.subrange(0, alias@.len() as int) == alias@);
        if starts_with(&alias, 0, alias.len(), prefix) {
            assert(prefix@.is_prefix_of(all[i + 1]));
            return true;
        }
        i += 1;
    }
    false
}

} // verus!
