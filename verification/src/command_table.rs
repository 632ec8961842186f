//! The command table: names, short forms, descriptions and arguments.
use vstd::prelude::*;

verus! {

/// Argument of a command, for completion hints.
#[derive(Debug)]
pub enum CommandArg {
    Nothing,
    Number,
    OneOf(Vec<&'static str>),
    /// Anything, typically a path.
    Free,
}

/// What a `CommandArg` stands for.
#[verifier::ext_equal]
pub enum ArgView {
    Nothing,
    Number,
    OneOf(Seq<Seq<char>>),
    Free,
}

impl View for CommandArg {
    type V = ArgView;

    open spec fn view(&self) -> ArgView {
        match self {
            CommandArg::Nothing => ArgView::Nothing,
            CommandArg::Number => ArgView::Number,
            CommandArg::OneOf(choices) => ArgView::OneOf(
                Seq::new(choices@.len(), |i: int| choices@[i]@),
            ),
            CommandArg::Free => ArgView::Free,
        }
    }
}

/// One value per command.
#[derive(Debug, Clone, Copy, PartialEq, Eq, Structural)]
pub enum Verb {
    Split,
    VSplit,
    Close,
    Only,
    Explore,
    Sexplore,
    Vexplore,
    TabNew,
    TabClose,
    TabOnly,
    Edit,
    Open,
    Buffer,
    BufferNext,
    BufferPrev,
    Quit,
    TabMove,
    Resize,
    VResize,
    QuitAll,
    Goto,
    Zoom,
    Rotate,
    First,
    Last,
    Next,
    Prev,
    Top,
    Bottom,
    Middle,
    Reset,
    Help,
    Night,
    Dpi,
    Quality,
    Cache,
    CacheSize,
    ECache,
    ECacheSize,
    Prefetch,
    Colors,
    Copy,
    Toc,
    Marks,
    DelMark,
    Back,
    Forward,
    Mouse,
    Text,
}

/// All commands, in the order in which they are listed.
pub open spec fn verbs() -> Seq<Verb> {
    seq![
        Verb::Split,
        Verb::VSplit,
        Verb::Close,
        Verb::Only,
        Verb::Explore,
        Verb::Sexplore,
        Verb::Vexplore,
        Verb::TabNew,
        Verb::TabClose,
        Verb::TabOnly,
        Verb::Edit,
        Verb::Open,
        Verb::Buffer,
        Verb::BufferNext,
        Verb::BufferPrev,
        Verb::Quit,
        Verb::TabMove,
        Verb::Resize,
        Verb::VResize,
        Verb::QuitAll,
        Verb::Goto,
        Verb::Zoom,
        Verb::Rotate,
        Verb::First,
        Verb::Last,
        Verb::Next,
        Verb::Prev,
        Verb::Top,
        Verb::Bottom,
        Verb::Middle,
        Verb::Reset,
        Verb::Help,
        Verb::Night,
        Verb::Dpi,
        Verb::Quality,
        Verb::Cache,
        Verb::CacheSize,
        Verb::ECache,
        Verb::ECacheSize,
        Verb::Prefetch,
        Verb::Colors,
        Verb::Copy,
        Verb::Toc,
        Verb::Marks,
        Verb::DelMark,
        Verb::Back,
        Verb::Forward,
        Verb::Mouse,
        Verb::Text,
    ]
}

/// The name of a command, followed by its short forms.
pub open spec fn spellings(verb: Verb) -> Seq<Seq<char>> {
    match verb {
        Verb::Split => seq!["split"@, "sp"@],
        Verb::VSplit => seq!["vsplit"@, "vsp"@],
        Verb::Close => seq!["close"@, "clo"@],
        Verb::Only => seq!["only"@, "on"@],
        Verb::Explore => seq!["Explore"@, "Ex"@],
        Verb::Sexplore => seq!["Sexplore"@, "Sex"@],
        Verb::Vexplore => seq!["Vexplore"@, "Vex"@],
        Verb::TabNew => seq!["tabnew"@, "tabe"@],
        Verb::TabClose => seq!["tabclose"@, "tabc"@],
        Verb::TabOnly => seq!["tabonly"@, "tabo"@],
        Verb::Edit => seq!["edit"@, "e"@],
        Verb::Open => seq!["open"@, "o"@],
        Verb::Buffer => seq!["buffer"@, "b"@],
        Verb::BufferNext => seq!["bnext"@, "bn"@],
        Verb::BufferPrev => seq!["bprev"@, "bp"@],
        Verb::Quit => seq!["quit"@, "q"@],
        Verb::TabMove => seq!["tabmove"@, "tabm"@],
        Verb::Resize => seq!["resize"@, "res"@],
        Verb::VResize => seq!["vresize"@, "vres"@],
        Verb::QuitAll => seq!["qall"@, "qa"@, "exit"@],
        Verb::Goto => seq!["goto"@, "jump"@],
        Verb::Zoom => seq!["zoom"@],
        Verb::Rotate => seq!["rotate"@],
        Verb::First => seq!["first"@],
        Verb::Last => seq!["last"@],
        Verb::Next => seq!["next"@],
        Verb::Prev => seq!["prev"@],
        Verb::Top => seq!["top"@],
        Verb::Bottom => seq!["bottom"@],
        Verb::Middle => seq!["middle"@],
        Verb::Reset => seq!["reset"@],
        Verb::Help => seq!["help"@],
        Verb::Night => seq!["night"@],
        Verb::Dpi => seq!["dpi"@],
        Verb::Quality => seq!["quality"@],
        Verb::Cache => seq!["cache"@],
        Verb::CacheSize => seq!["cache-size"@],
        Verb::ECache => seq!["ecache"@],
        Verb::ECacheSize => seq!["ecache-size"@],
        Verb::Prefetch => seq!["prefetch"@],
        Verb::Colors => seq!["colors"@],
        Verb::Copy => seq!["copy"@],
        Verb::Toc => seq!["toc"@],
        Verb::Marks => seq!["marks"@, "bookmarks"@],
        Verb::DelMark => seq!["delmark"@],
        Verb::Back => seq!["back"@],
        Verb::Forward => seq!["forward"@],
        Verb::Mouse => seq!["mouse"@],
        Verb::Text => seq!["text"@],
    }
}

/// What a command does, in words.
pub open spec fn description(verb: Verb) -> Seq<char> {
    match verb {
        Verb::Split => "Horizontal split (optionally open a file)"@,
        Verb::VSplit => "Vertical split (optionally open a file)"@,
        Verb::Close => "Close current window"@,
        Verb::Only => "Close all other windows in current tab"@,
        Verb::Explore => "File explorer in current window"@,
        Verb::Sexplore => "Horizontal split + file explorer"@,
        Verb::Vexplore => "Vertical split + file explorer"@,
        Verb::TabNew => "Open a new tab (optionally with a file)"@,
        Verb::TabClose => "Close the current tab"@,
        Verb::TabOnly => "Close all other tabs"@,
        Verb::Edit => "Load file into current window"@,
        Verb::Open => "Open a file in the current window (same as :edit)"@,
        Verb::Buffer => "Show buffer N in current window"@,
        Verb::BufferNext => "Next buffer in list"@,
        Verb::BufferPrev => "Previous buffer in list"@,
        Verb::Quit => "Close current window (quit if last)"@,
        Verb::TabMove => "Move current tab by \u{b1}N positions"@,
        Verb::Resize => "Adjust current window height by \u{b1}N rows"@,
        Verb::VResize => "Adjust current window width by \u{b1}N cols"@,
        Verb::QuitAll => "Quit svreader"@,
        Verb::Goto => "Go to page N (1-indexed)"@,
        Verb::Zoom => "Set zoom mode (fit-w, fit-h, fit-p, 125%, ...)"@,
        Verb::Rotate => "Rotate page (90, 180, 270, 0)"@,
        Verb::First => "Jump to first page"@,
        Verb::Last => "Jump to last page"@,
        Verb::Next => "Next page (no overlap)"@,
        Verb::Prev => "Previous page (no overlap)"@,
        Verb::Top => "Scroll to top of current page"@,
        Verb::Bottom => "Scroll to bottom of current page"@,
        Verb::Middle => "Scroll to middle of current page"@,
        Verb::Reset => "Reset zoom/rotation/scroll to defaults"@,
        Verb::Help => "Toggle keybindings overlay"@,
        Verb::Night => "Night mode (on|off|toggle)"@,
        Verb::Dpi => "Raster DPI override (N or 'auto')"@,
        Verb::Quality => "Sixel quality % (10..200)"@,
        Verb::Cache => "Enable/disable page cache"@,
        Verb::CacheSize => "Set RenderCache LRU capacity (pages)"@,
        Verb::ECache => "Enable/disable encoded-frame cache"@,
        Verb::ECacheSize => "Set encoded-frame cache capacity (frames)"@,
        Verb::Prefetch => "Pages to prefetch each direction"@,
        Verb::Colors => "Sixel palette (xterm256 or gray)"@,
        Verb::Copy => "Copy current page to clipboard as image"@,
        Verb::Toc => "Toggle table of contents"@,
        Verb::Marks => "Toggle bookmark list"@,
        Verb::DelMark => "Delete mark (a letter)"@,
        Verb::Back => "Jump back in the jump list"@,
        Verb::Forward => "Jump forward in the jump list"@,
        Verb::Mouse => "Mouse support (on|off|toggle)"@,
        Verb::Text => "Open document text in $EDITOR"@,
    }
}

/// The argument that a command takes.
pub open spec fn argument(verb: Verb) -> ArgView {
    match verb {
        Verb::Split | Verb::VSplit | Verb::Explore | Verb::Sexplore | Verb::Vexplore | Verb::TabNew | Verb::Edit | Verb::Open | Verb::Dpi | Verb::DelMark => ArgView::Free,
        Verb::Close | Verb::Only | Verb::TabClose | Verb::TabOnly | Verb::BufferNext | Verb::BufferPrev | Verb::Quit | Verb::QuitAll | Verb::First | Verb::Last | Verb::Next | Verb::Prev | Verb::Top | Verb::Bottom | Verb::Middle | Verb::Reset | Verb::Help | Verb::Copy | Verb::Toc | Verb::Marks | Verb::Back | Verb::Forward | Verb::Text => ArgView::Nothing,
        Verb::Buffer | Verb::TabMove | Verb::Resize | Verb::VResize | Verb::Goto | Verb::Quality | Verb::CacheSize | Verb::ECacheSize | Verb::Prefetch => ArgView::Number,
        Verb::Zoom => ArgView::OneOf(seq!["fit-w"@, "fit-h"@, "fit-p"@]),
        Verb::Rotate => ArgView::OneOf(seq!["0"@, "90"@, "180"@, "270"@]),
        Verb::Night | Verb::Cache | Verb::ECache | Verb::Mouse => ArgView::OneOf(seq!["on"@, "off"@, "toggle"@]),
        Verb::Colors => ArgView::OneOf(seq!["xterm256"@, "gray"@]),
    }
}

fn name_of(verb: Verb) -> (name: &'static str)
    ensures
        name@ == spellings(verb)[0],
{
    match verb {
        Verb::Split => "split",
        Verb::VSplit => "vsplit",
        Verb::Close => "close",
        Verb::Only => "only",
        Verb::Explore => "Explore",
        Verb::Sexplore => "Sexplore",
        Verb::Vexplore => "Vexplore",
        Verb::TabNew => "tabnew",
        Verb::TabClose => "tabclose",
        Verb::TabOnly => "tabonly",
        Verb::Edit => "edit",
        Verb::Open => "open",
        Verb::Buffer => "buffer",
        Verb::BufferNext => "bnext",
        Verb::BufferPrev => "bprev",
        Verb::Quit => "quit",
        Verb::TabMove => "tabmove",
        Verb::Resize => "resize",
        Verb::VResize => "vresize",
        Verb::QuitAll => "qall",
        Verb::Goto => "goto",
        Verb::Zoom => "zoom",
        Verb::Rotate => "rotate",
        Verb::First => "first",
        Verb::Last => "last",
        Verb::Next => "next",
        Verb::Prev => "prev",
        Verb::Top => "top",
        Verb::Bottom => "bottom",
        Verb::Middle => "middle",
        Verb::Reset => "reset",
        Verb::Help => "help",
        Verb::Night => "night",
        Verb::Dpi => "dpi",
        Verb::Quality => "quality",
        Verb::Cache => "cache",
        Verb::CacheSize => "cache-size",
        Verb::ECache => "ecache",
        Verb::ECacheSize => "ecache-size",
        Verb::Prefetch => "prefetch",
        Verb::Colors => "colors",
        Verb::Copy => "copy",
        Verb::Toc => "toc",
        Verb::Marks => "marks",
        Verb::DelMark => "delmark",
        Verb::Back => "back",
        Verb::Forward => "forward",
        Verb::Mouse => "mouse",
        Verb::Text => "text",
    }
}

fn aliases_of(verb: Verb) -> (aliases: Vec<&'static str>)
    ensures
        aliases@.len() + 1 == spellings(verb).len(),
        forall|i: int| 0 <= i < aliases@.len() ==> (#[trigger] aliases@[i])@ == spellings(verb)[i + 1],
{
    match verb {
        Verb::Split => vec!["sp"],
        Verb::VSplit => vec!["vsp"],
        Verb::Close => vec!["clo"],
        Verb::Only => vec!["on"],
        Verb::Explore => vec!["Ex"],
        Verb::Sexplore => vec!["Sex"],
        Verb::Vexplore => vec!["Vex"],
        Verb::TabNew => vec!["tabe"],
        Verb::TabClose => vec!["tabc"],
        Verb::TabOnly => vec!["tabo"],
        Verb::Edit => vec!["e"],
        Verb::Open => vec!["o"],
        Verb::Buffer => vec!["b"],
        Verb::BufferNext => vec!["bn"],
        Verb::BufferPrev => vec!["bp"],
        Verb::Quit => vec!["q"],
        Verb::TabMove => vec!["tabm"],
        Verb::Resize => vec!["res"],
        Verb::VResize => vec!["vres"],
        Verb::QuitAll => vec!["qa", "exit"],
        Verb::Goto => vec!["jump"],
        Verb::Marks => vec!["bookmarks"],
        _ => Vec::new(),
    }
}

fn description_of(verb: Verb) -> (s: &'static str)
    ensures
        s@ == description(verb),
{
    match verb {
        Verb::Split => "Horizontal split (optionally open a file)",
        Verb::VSplit => "Vertical split (optionally open a file)",
        Verb::Close => "Close current window",
        Verb::Only => "Close all other windows in current tab",
        Verb::Explore => "File explorer in current window",
        Verb::Sexplore => "Horizontal split + file explorer",
        Verb::Vexplore => "Vertical split + file explorer",
        Verb::TabNew => "Open a new tab (optionally with a file)",
        Verb::TabClose => "Close the current tab",
        Verb::TabOnly => "Close all other tabs",
        Verb::Edit => "Load file into current window",
        Verb::Open => "Open a file in the current window (same as :edit)",
        Verb::Buffer => "Show buffer N in current window",
        Verb::BufferNext => "Next buffer in list",
        Verb::BufferPrev => "Previous buffer in list",
        Verb::Quit => "Close current window (quit if last)",
        Verb::TabMove => "Move current tab by \u{b1}N positions",
        Verb::Resize => "Adjust current window height by \u{b1}N rows",
        Verb::VResize => "Adjust current window width by \u{b1}N cols",
        Verb::QuitAll => "Quit svreader",
        Verb::Goto => "Go to page N (1-indexed)",
        Verb::Zoom => "Set zoom mode (fit-w, fit-h, fit-p, 125%, ...)",
        Verb::Rotate => "Rotate page (90, 180, 270, 0)",
        Verb::First => "Jump to first page",
        Verb::Last => "Jump to last page",
        Verb::Next => "Next page (no overlap)",
        Verb::Prev => "Previous page (no overlap)",
        Verb::Top => "Scroll to top of current page",
        Verb::Bottom => "Scroll to bottom of current page",
        Verb::Middle => "Scroll to middle of current page",
        Verb::Reset => "Reset zoom/rotation/scroll to defaults",
        Verb::Help => "Toggle keybindings overlay",
        Verb::Night => "Night mode (on|off|toggle)",
        Verb::Dpi => "Raster DPI override (N or 'auto')",
        Verb::Quality => "Sixel quality % (10..200)",
        Verb::Cache => "Enable/disable page cache",
        Verb::CacheSize => "Set RenderCache LRU capacity (pages)",
        Verb::ECache => "Enable/disable encoded-frame cache",
        Verb::ECacheSize => "Set encoded-frame cache capacity (frames)",
        Verb::Prefetch => "Pages to prefetch each direction",
        Verb::Colors => "Sixel palette (xterm256 or gray)",
        Verb::Copy => "Copy current page to clipboard as image",
        Verb::Toc => "Toggle table of contents",
        Verb::Marks => "Toggle bookmark list",
        Verb::DelMark => "Delete mark (a letter)",
        Verb::Back => "Jump back in the jump list",
        Verb::Forward => "Jump forward in the jump list",
        Verb::Mouse => "Mouse support (on|off|toggle)",
        Verb::Text => "Open document text in $EDITOR",
    }
}

fn argument_of(verb: Verb) -> (arg: CommandArg)
    ensures
        arg@ == argument(verb),
{
    let arg = match verb {
        Verb::Split | Verb::VSplit | Verb::Explore | Verb::Sexplore | Verb::Vexplore | Verb::TabNew | Verb::Edit | Verb::Open | Verb::Dpi | Verb::DelMark => CommandArg::Free,
        Verb::Close | Verb::Only | Verb::TabClose | Verb::TabOnly | Verb::BufferNext | Verb::BufferPrev | Verb::Quit | Verb::QuitAll | Verb::First | Verb::Last | Verb::Next | Verb::Prev | Verb::Top | Verb::Bottom | Verb::Middle | Verb::Reset | Verb::Help | Verb::Copy | Verb::Toc | Verb::Marks | Verb::Back | Verb::Forward | Verb::Text => CommandArg::Nothing,
        Verb::Buffer | Verb::TabMove | Verb::Resize | Verb::VResize | Verb::Goto | Verb::Quality | Verb::CacheSize | Verb::ECacheSize | Verb::Prefetch => CommandArg::Number,
        Verb::Zoom => CommandArg::OneOf(vec!["fit-w", "fit-h", "fit-p"]),
        Verb::Rotate => CommandArg::OneOf(vec!["0", "90", "180", "270"]),
        Verb::Night | Verb::Cache | Verb::ECache | Verb::Mouse => CommandArg::OneOf(vec!["on", "off", "toggle"]),
        Verb::Colors => CommandArg::OneOf(vec!["xterm256", "gray"]),
    };
    assert(arg@ =~= argument(verb));
    arg
}

fn all_verbs() -> (r: Vec<Verb>)
    ensures
        r@ == verbs(),
{
    let r: Vec<Verb> = vec![
        Verb::Split,
        Verb::VSplit,
        Verb::Close,
        Verb::Only,
        Verb::Explore,
        Verb::Sexplore,
        Verb::Vexplore,
        Verb::TabNew,
        Verb::TabClose,
        Verb::TabOnly,
        Verb::Edit,
        Verb::Open,
        Verb::Buffer,
        Verb::BufferNext,
        Verb::BufferPrev,
        Verb::Quit,
        Verb::TabMove,
        Verb::Resize,
        Verb::VResize,
        Verb::QuitAll,
        Verb::Goto,
        Verb::Zoom,
        Verb::Rotate,
        Verb::First,
        Verb::Last,
        Verb::Next,
        Verb::Prev,
        Verb::Top,
        Verb::Bottom,
        Verb::Middle,
        Verb::Reset,
        Verb::Help,
        Verb::Night,
        Verb::Dpi,
        Verb::Quality,
        Verb::Cache,
        Verb::CacheSize,
        Verb::ECache,
        Verb::ECacheSize,
        Verb::Prefetch,
        Verb::Colors,
        Verb::Copy,
        Verb::Toc,
        Verb::Marks,
        Verb::DelMark,
        Verb::Back,
        Verb::Forward,
        Verb::Mouse,
        Verb::Text,
    ];
    assert(r@ =~= verbs());
    r
}

#[derive(Debug)]
pub struct Command {
    pub verb: Verb,
    pub name: &'static str,
    pub aliases: Vec<&'static str>,
    pub description: &'static str,
    pub arg: CommandArg,
}

impl Command {
    /// The entry says of its verb what the table says.
    pub open spec fn faithful(self) -> bool {
        &&& self.name@ == spellings(self.verb)[0]
        &&& self.aliases@.len() + 1 == spellings(self.verb).len()
        &&& forall|i: int|
            0 <= i < self.aliases@.len() ==> (#[trigger] self.aliases@[i])@ == spellings(
                self.verb,
            )[i + 1]
        &&& self.description@ == description(self.verb)
        &&& self.arg@ == argument(self.verb)
    }
}

/// The entries of all commands, in order.
pub fn all_commands() -> (commands: Vec<Command>)
    ensures
        commands@.len() == verbs().len(),
        forall|i: int|
            0 <= i < verbs().len() ==> (#[trigger] commands@[i]).verb == verbs()[i]
                && commands@[i].faithful(),
{
    let all: Vec<Verb> = all_verbs();
    let mut commands: Vec<Command> = Vec::new();
    let mut i: usize = 0;
    while i < all.len()
        invariant
            i <= all@.len(),
            all@ == verbs(),
            commands@.len() == i,
            forall|k: int|
                0 <= k < i ==> (#[trigger] commands@[k]).verb == verbs()[k]
                    && commands@[k].faithful(),
        decreases all@.len() - i,
    {
        let verb: Verb = all[i];
        commands.push(
            Command {
                verb,
                name: name_of(verb),
                aliases: aliases_of(verb),
                description: description_of(verb),
                arg: argument_of(verb),
            },
        );
        i += 1;
    }
    commands
}

} // verus!
