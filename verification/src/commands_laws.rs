//! Laws of command lines.
use vstd::prelude::*;

use crate::command_table::{self, ArgView, Verb};
use crate::commands::{self, CommandError, ParsedCommand};
use crate::text;

verus! {

/// A text of white space.
pub open spec fn blank(s: Seq<char>) -> bool {
    forall|i: int| 0 <= i < s.len() ==> text::is_white(#[trigger] s[i])
}

proof fn lemma_trim_left_skips(w: Seq<char>, s: Seq<char>)
    requires
        blank(w),
    ensures
        text::trim_left(w + s) == text::trim_left(s),
    decreases w.len(),
{
    if w.len() == 0 {
        assert(w + s =~= s);
    } else {
        let rest = w.skip(1);
        assert(blank(rest)) by {
            assert forall|i: int| 0 <= i < rest.len() implies text::is_white(#[trigger] rest[i]) by {
                assert(rest[i] == w[i + 1]);
            }
        }
        lemma_trim_left_skips(rest, s);
        assert((w + s)[0] == w[0]);
        assert((w + s).skip(1) =~= rest + s);
    }
}

proof fn lemma_trim_right_skips(s: Seq<char>, w: Seq<char>)
    requires
        blank(w),
    ensures
        text::trim_right(s + w) == text::trim_right(s),
    decreases w.len(),
{
    if w.len() == 0 {
        assert(s + w =~= s);
    } else {
        let rest = w.drop_last();
        assert(blank(rest)) by {
            assert forall|i: int| 0 <= i < rest.len() implies text::is_white(#[trigger] rest[i]) by {
                assert(rest[i] == w[i]);
            }
        }
        lemma_trim_right_skips(s, rest);
        assert((s + w).last() == w[w.len() - 1]);
        assert((s + w).drop_last() =~= s + rest);
    }
}

/// White space at the end does not matter to what is left at the beginning.
proof fn lemma_trim_left_before(s: Seq<char>, w: Seq<char>)
    requires
        blank(w),
    ensures
        text::trim_right(text::trim_left(s + w)) == text::trim_right(text::trim_left(s)),
    decreases s.len(),
{
    if s.len() > 0 && text::is_white(s[0]) {
        assert((s + w)[0] == s[0]);
        assert((s + w).skip(1) =~= s.skip(1) + w);
        lemma_trim_left_before(s.skip(1), w);
    } else if s.len() > 0 {
        assert((s + w)[0] == s[0]);
        lemma_trim_right_skips(s, w);
    } else {
        assert(s + w =~= w);
        assert(w + Seq::<char>::empty() =~= w);
        lemma_trim_left_skips(w, Seq::empty());
    }
}

/// White space around a command line does not matter.
pub proof fn lemma_outer_space(
    before: Seq<char>,
    line: Seq<char>,
    after: Seq<char>,
    home: Option<Seq<char>>,
    r: Result<ParsedCommand, CommandError>,
)
    requires
        blank(before),
        blank(after),
    ensures
        commands::means(before + line + after, home, r) == commands::means(line, home, r),
{
    assert(before + line + after =~= before + (line + after));
    lemma_trim_left_skips(before, line + after);
    lemma_trim_left_before(line, after);
}

proof fn lemma_trim_right_keeps(head: Seq<char>, s: Seq<char>)
    requires
        head.len() > 0,
        !text::is_white(head.last()),
    ensures
        text::trim_right(head + s) == head + text::trim_right(s),
    decreases s.len(),
{
    if s.len() == 0 {
        assert(head + s =~= head);
        assert(text::trim_right(s) =~= s);
    } else {
        assert((head + s).last() == s.last());
        if text::is_white(s.last()) {
            assert((head + s).drop_last() =~= head + s.drop_last());
            lemma_trim_right_keeps(head, s.drop_last());
        }
    }
}

/// `:vertical resize` is another way to write `:vresize`, whatever follows.
pub proof fn lemma_vertical_resize(
    rest: Seq<char>,
    home: Option<Seq<char>>,
    r: Result<ParsedCommand, CommandError>,
)
    ensures
        commands::means("vertical resize"@ + rest, home, r) == commands::means(
            "vresize"@ + rest,
            home,
            r,
        ),
{
    reveal_strlit("vertical resize");
    reveal_strlit("vertical ");
    reveal_strlit("resize");
    reveal_strlit("vresize");
    let long = "vertical resize"@ + rest;
    let short = "vresize"@ + rest;
    let u = text::trim_right(rest);
    assert(long[0] == 'v' && short[0] == 'v');
    lemma_trim_right_keeps("vertical resize"@, rest);
    lemma_trim_right_keeps("vresize"@, rest);
    let a = text::trimmed(long);
    let b = text::trimmed(short);
    assert(a == "vertical resize"@ + u);
    assert(b == "vresize"@ + u);
    assert("vertical "@.is_prefix_of(a)) by {
        assert(a.subrange(0, "vertical "@.len() as int) =~= "vertical "@);
    }
    let tail = a.skip("vertical "@.len() as int);
    assert(tail =~= "resize"@ + u);
    assert(tail[0] == 'r');
    assert(text::trim_left(tail) == tail);
    assert("resize"@.is_prefix_of(tail)) by {
        assert(tail.subrange(0, "resize"@.len() as int) =~= "resize"@);
    }
    assert(tail.skip("resize"@.len() as int) =~= u);
    assert(!"vertical "@.is_prefix_of(b)) by {
        assert(b[1] == 'r');
        if "vertical "@.is_prefix_of(b) {
            assert("vertical "@[1] == b.subrange(0, "vertical "@.len() as int)[1]);
        }
    }
    assert(commands::rewritten(a) == Some(b));
    assert(commands::rewritten(b) == Some(b));
}

// --------------------------- Every command works ---------------------------

/// An argument that the command accepts.
pub open spec fn suits(verb: Verb, arg: Seq<char>) -> bool {
    match verb {
        Verb::Edit | Verb::Open => text::trimmed(arg).len() > 0,
        Verb::Buffer | Verb::Goto | Verb::CacheSize | Verb::ECacheSize | Verb::Prefetch => {
            text::unsigned_of(arg, usize::MAX as nat) is Some
        },
        Verb::TabMove | Verb::Resize | Verb::VResize => commands::signed_arg(arg) is Some,
        Verb::Zoom => commands::fit(arg) is Some || text::is_float(
            commands::without_percent(arg),
        ),
        Verb::Rotate => arg == "cw"@ || arg == "ccw"@ || text::signed_of(
            arg,
            i32::MIN as int,
            i32::MAX as int,
        ) is Some,
        Verb::Night | Verb::Cache | Verb::ECache | Verb::Mouse => commands::switch(arg) is Some,
        Verb::Dpi => arg == "auto"@ || arg.len() == 0 || text::is_float(arg),
        Verb::Quality => text::is_float(commands::without_percent(arg)),
        Verb::Colors => commands::palette(arg) is Some,
        Verb::DelMark => arg.len() == 1 && text::is_letter(arg[0]),
        _ => true,
    }
}

/// A command is parsed exactly where its argument suits it.
pub proof fn lemma_parsed_where_suited(
    verb: Verb,
    arg: Seq<char>,
    home: Option<Seq<char>>,
    r: Result<ParsedCommand, CommandError>,
)
    requires
        commands::obeys(verb, arg, home, r),
    ensures
        r is Ok <==> suits(verb, arg),
{
}

/// A command line is parsed exactly where its first word is a command and the
/// argument suits it. (`vertical` comes before `resize` alone.)
pub proof fn lemma_line_parsed(
    line: Seq<char>,
    home: Option<Seq<char>>,
    r: Result<ParsedCommand, CommandError>,
)
    requires
        commands::means(line, home, r),
    ensures
        r is Ok <==> text::trimmed(line).len() > 0 && (commands::rewritten(text::trimmed(line))
            matches Some(s) && (commands::first_spelled(
            command_table::verbs(),
            commands::command_word(s),
        ) matches Some(i) && suits(command_table::verbs()[i], commands::command_arg(s)))),
{
    let t = text::trimmed(line);
    if let Some(s) = commands::rewritten(t) {
        if let Some(i) = commands::first_spelled(
            command_table::verbs(),
            commands::command_word(s),
        ) {
            if t.len() > 0 {
                lemma_parsed_where_suited(
                    command_table::verbs()[i],
                    commands::command_arg(s),
                    home,
                    r,
                );
            }
        }
    }
}

/// An argument of the kind that the table lists for the command. Where it
/// lists a free text, that is a path, a resolution or a mark. Nothing at all
/// toggles a switch, resets the resolution and stands for no path where a path
/// may be left out.
pub open spec fn listed(verb: Verb, arg: Seq<char>) -> bool {
    match command_table::argument(verb) {
        ArgView::Nothing => true,
        ArgView::Number => text::unsigned_of(arg, i32::MAX as nat) is Some,
        ArgView::OneOf(choices) => choices.contains(arg) || (arg.len() == 0 && !(verb is Zoom
            || verb is Rotate || verb is Colors)),
        ArgView::Free => match verb {
            Verb::Dpi => arg == "auto"@ || arg.len() == 0 || text::all_digits(arg),
            Verb::DelMark => arg.len() == 1 && text::is_letter(arg[0]),
            Verb::Edit | Verb::Open => text::trimmed(arg).len() > 0,
            _ => true,
        },
    }
}

pub(crate) proof fn lemma_digits_are_a_float(s: Seq<char>)
    requires
        text::all_digits(s),
    ensures
        text::is_float(s),
        commands::without_percent(s) == s,
        text::trimmed(s) == s,
{
    text::lemma_digit_run(s);
    assert(text::is_digit(s[0]));
    assert(text::is_digit(s.last()));
    assert(s.skip(s.len() as int).len() == 0);
}

proof fn lemma_number_suits(verb: Verb, arg: Seq<char>)
    requires
        command_table::argument(verb) is Number,
        text::unsigned_of(arg, i32::MAX as nat) is Some,
    ensures
        suits(verb, arg),
{
    let plus = arg.len() > 0 && arg[0] == '+';
    let body = if plus {
        arg.skip(1)
    } else {
        arg
    };
    lemma_digits_are_a_float(body);
    assert(text::is_digit(body[0]));
    assert(text::is_digit(body.last()));
    if plus {
        assert(arg.last() == body.last());
    }
    assert(text::trimmed(arg) == arg);
    assert(commands::without_percent(arg) == arg);
}

proof fn lemma_choice_suits(verb: Verb, arg: Seq<char>)
    requires
        command_table::argument(verb) matches ArgView::OneOf(choices) && choices.contains(arg),
    ensures
        suits(verb, arg),
{
    let choices = command_table::argument(verb)->OneOf_0;
    let i = choices.index_of(arg);
    assert(choices[i] == arg);
    if verb == Verb::Rotate {
        reveal_strlit("0");
        reveal_strlit("90");
        reveal_strlit("180");
        reveal_strlit("270");
        reveal_with_fuel(text::digits_value, 4);
        assert(text::all_digits(arg));
        assert(text::digits_value(arg) <= 999);
    }
}

/// Every command, given an argument of the kind that the table
/// lists for it, is parsed.
pub proof fn lemma_every_command_is_parsed(
    verb: Verb,
    arg: Seq<char>,
    home: Option<Seq<char>>,
    r: Result<ParsedCommand, CommandError>,
)
    requires
        listed(verb, arg),
        commands::obeys(verb, arg, home, r),
    ensures
        r is Ok,
{
    match command_table::argument(verb) {
        ArgView::Number => lemma_number_suits(verb, arg),
        ArgView::OneOf(choices) => if choices.contains(arg) {
            lemma_choice_suits(verb, arg);
        } else {
            reveal_strlit("");
            assert(arg =~= ""@);
        },
        _ => if verb == Verb::Dpi && arg != "auto"@ && arg.len() > 0 {
            lemma_digits_are_a_float(arg);
        },
    }
    lemma_parsed_where_suited(verb, arg, home, r);
}

/// No two commands share a spelling.
#[verifier::rlimit(100)]
pub proof fn lemma_spellings_differ(a: Verb, b: Verb, k: int, l: int)
    requires
        a != b,
        0 <= k < command_table::spellings(a).len(),
        0 <= l < command_table::spellings(b).len(),
    ensures
        command_table::spellings(a)[k] != command_table::spellings(b)[l],
{
    let x = command_table::spellings(a)[k];
    let y = command_table::spellings(b)[l];
    reveal_strlit("split");
    reveal_strlit("sp");
    reveal_strlit("vsplit");
    reveal_strlit("vsp");
    reveal_strlit("close");
    reveal_strlit("clo");
    reveal_strlit("only");
    reveal_strlit("on");
    reveal_strlit("Explore");
    reveal_strlit("Ex");
    reveal_strlit("Sexplore");
    reveal_strlit("Sex");
    reveal_strlit("Vexplore");
    reveal_strlit("Vex");
    reveal_strlit("tabnew");
    reveal_strlit("tabe");
    reveal_strlit("tabclose");
    reveal_strlit("tabc");
    reveal_strlit("tabonly");
    reveal_strlit("tabo");
    reveal_strlit("edit");
    reveal_strlit("e");
    reveal_strlit("open");
    reveal_strlit("o");
    reveal_strlit("buffer");
    reveal_strlit("b");
    reveal_strlit("bnext");
    reveal_strlit("bn");
    reveal_strlit("bprev");
    reveal_strlit("bp");
    reveal_strlit("quit");
    reveal_strlit("q");
    reveal_strlit("tabmove");
    reveal_strlit("tabm");
    reveal_strlit("resize");
    reveal_strlit("res");
    reveal_strlit("vresize");
    reveal_strlit("vres");
    reveal_strlit("qall");
    reveal_strlit("qa");
    reveal_strlit("exit");
    reveal_strlit("goto");
    reveal_strlit("jump");
    reveal_strlit("zoom");
    reveal_strlit("rotate");
    reveal_strlit("first");
    reveal_strlit("last");
    reveal_strlit("next");
    reveal_strlit("prev");
    reveal_strlit("top");
    reveal_strlit("bottom");
    reveal_strlit("middle");
    reveal_strlit("reset");
    reveal_strlit("help");
    reveal_strlit("night");
    reveal_strlit("dpi");
    reveal_strlit("quality");
    reveal_strlit("cache");
    reveal_strlit("cache-size");
    reveal_strlit("ecache");
    reveal_strlit("ecache-size");
    reveal_strlit("prefetch");
    reveal_strlit("colors");
    reveal_strlit("copy");
    reveal_strlit("toc");
    reveal_strlit("marks");
    reveal_strlit("bookmarks");
    reveal_strlit("delmark");
    reveal_strlit("back");
    reveal_strlit("forward");
    reveal_strlit("mouse");
    reveal_strlit("text");
    if x == y {
        assert(x.len() == y.len());
        assert(x[0] == y[0] && x[1] == y[1] && x[2] == y[2] && x[3] == y[3] && x[4] == y[4]);
    }
}

proof fn lemma_places(i: int, j: int)
    requires
        0 <= i < j < command_table::verbs().len(),
    ensures
        command_table::verbs()[i] != command_table::verbs()[j],
{
}

/// Every spelling of a command leads to that command.
pub proof fn lemma_spelling_found(i: int, k: int)
    requires
        0 <= i < command_table::verbs().len(),
        0 <= k < command_table::spellings(command_table::verbs()[i]).len(),
    ensures
        commands::first_spelled(
            command_table::verbs(),
            command_table::spellings(command_table::verbs()[i])[k],
        ) == Some(i),
{
    let vs = command_table::verbs();
    let name = command_table::spellings(vs[i])[k];
    assert(command_table::spellings(vs[i]).contains(name));
    assert forall|j: int| 0 <= j < i implies !command_table::spellings(
        #[trigger] vs[j],
    ).contains(name) by {
        lemma_places(j, i);
        if command_table::spellings(vs[j]).contains(name) {
            let l = command_table::spellings(vs[j]).index_of(name);
            lemma_spellings_differ(vs[i], vs[j], k, l);
        }
    }
    commands::lemma_first_spelled(vs, name, i);
}

/// A text without white space.
pub open spec fn solid(s: Seq<char>) -> bool {
    forall|i: int| 0 <= i < s.len() ==> !text::is_white(#[trigger] s[i])
}

/// Spellings are words, none of which is `vertical`.
#[verifier::rlimit(100)]
proof fn lemma_spellings_are_words(verb: Verb, k: int)
    requires
        0 <= k < command_table::spellings(verb).len(),
    ensures
        command_table::spellings(verb)[k].len() > 0,
        solid(command_table::spellings(verb)[k]),
        command_table::spellings(verb)[k] != "vertical"@,
{
    let x = command_table::spellings(verb)[k];
    reveal_strlit("split");
    reveal_strlit("sp");
    reveal_strlit("vsplit");
    reveal_strlit("vsp");
    reveal_strlit("close");
    reveal_strlit("clo");
    reveal_strlit("only");
    reveal_strlit("on");
    reveal_strlit("Explore");
    reveal_strlit("Ex");
    reveal_strlit("Sexplore");
    reveal_strlit("Sex");
    reveal_strlit("Vexplore");
    reveal_strlit("Vex");
    reveal_strlit("tabnew");
    reveal_strlit("tabe");
    reveal_strlit("tabclose");
    reveal_strlit("tabc");
    reveal_strlit("tabonly");
    reveal_strlit("tabo");
    reveal_strlit("edit");
    reveal_strlit("e");
    reveal_strlit("open");
    reveal_strlit("o");
    reveal_strlit("buffer");
    reveal_strlit("b");
    reveal_strlit("bnext");
    reveal_strlit("bn");
    reveal_strlit("bprev");
    reveal_strlit("bp");
    reveal_strlit("quit");
    reveal_strlit("q");
    reveal_strlit("tabmove");
    reveal_strlit("tabm");
    reveal_strlit("resize");
    reveal_strlit("res");
    reveal_strlit("vresize");
    reveal_strlit("vres");
    reveal_strlit("qall");
    reveal_strlit("qa");
    reveal_strlit("exit");
    reveal_strlit("goto");
    reveal_strlit("jump");
    reveal_strlit("zoom");
    reveal_strlit("rotate");
    reveal_strlit("first");
    reveal_strlit("last");
    reveal_strlit("next");
    reveal_strlit("prev");
    reveal_strlit("top");
    reveal_strlit("bottom");
    reveal_strlit("middle");
    reveal_strlit("reset");
    reveal_strlit("help");
    reveal_strlit("night");
    reveal_strlit("dpi");
    reveal_strlit("quality");
    reveal_strlit("cache");
    reveal_strlit("cache-size");
    reveal_strlit("ecache");
    reveal_strlit("ecache-size");
    reveal_strlit("prefetch");
    reveal_strlit("colors");
    reveal_strlit("copy");
    reveal_strlit("toc");
    reveal_strlit("marks");
    reveal_strlit("bookmarks");
    reveal_strlit("delmark");
    reveal_strlit("back");
    reveal_strlit("forward");
    reveal_strlit("mouse");
    reveal_strlit("text");
    reveal_strlit("vertical");
    assert(x.len() <= 11);
    assert forall|i: int| 0 <= i < x.len() implies !text::is_white(#[trigger] x[i]) by {
        let c = x[i];
        assert('-' <= c <= 'z');
    }
    if x == "vertical"@ {
        assert(x.len() == 8);
        assert(x[0] == 'v' && x[1] == 'e' && x[2] == 'r');
    }
}

pub(crate) proof fn lemma_word_len(name: Seq<char>, rest: Seq<char>)
    requires
        solid(name),
        rest.len() > 0 ==> text::is_white(rest[0]),
    ensures
        text::word_len(name + rest) == name.len(),
    decreases name.len(),
{
    if name.len() == 0 {
        assert(name + rest =~= rest);
    } else {
        let tail = name.skip(1);
        assert(solid(tail)) by {
            assert forall|i: int| 0 <= i < tail.len() implies !text::is_white(#[trigger] tail[i]) by {
                assert(tail[i] == name[i + 1]);
            }
        }
        lemma_word_len(tail, rest);
        assert((name + rest)[0] == name[0]);
        assert((name + rest).skip(1) =~= tail + rest);
    }
}

/// Trimming a text at its end changes nothing of what trimming it leaves.
proof fn lemma_trim_twice(s: Seq<char>)
    ensures
        text::trimmed(text::trim_right(s)) == text::trimmed(s),
    decreases s.len(),
{
    if s.len() > 0 && text::is_white(s.last()) {
        let w = seq![s.last()];
        assert(blank(w));
        assert(s.drop_last() + w =~= s);
        lemma_trim_left_before(s.drop_last(), w);
        lemma_trim_twice(s.drop_last());
    }
}

/// A line of a command's spelling and, after a space, an argument means what
/// that command does with the argument, without the space around it.
pub proof fn lemma_line_is_obeyed(
    i: int,
    k: int,
    arg: Seq<char>,
    home: Option<Seq<char>>,
    r: Result<ParsedCommand, CommandError>,
)
    requires
        0 <= i < command_table::verbs().len(),
        0 <= k < command_table::spellings(command_table::verbs()[i]).len(),
        commands::means(
            command_table::spellings(command_table::verbs()[i])[k] + seq![' '] + arg,
            home,
            r,
        ),
    ensures
        commands::obeys(command_table::verbs()[i], text::trimmed(arg), home, r),
{
    let verb = command_table::verbs()[i];
    let name = command_table::spellings(verb)[k];
    let line = name + seq![' '] + arg;
    let rest = seq![' '] + arg;
    lemma_spellings_are_words(verb, k);
    lemma_spelling_found(i, k);
    assert(line =~= name + rest);
    assert(!text::is_white(name[0]) && !text::is_white(name.last()));
    assert(line[0] == name[0]);
    lemma_trim_right_keeps(name, rest);
    let tail = text::trim_right(rest);
    let t = text::trimmed(line);
    assert(t == name + tail);
    lemma_trim_right_starts(rest);
    lemma_word_len(name, tail);
    assert(commands::command_word(t) =~= name);
    lemma_trim_twice(rest);
    assert(blank(seq![' ']));
    lemma_trim_left_skips(seq![' '], arg);
    assert(text::trimmed(tail) == text::trimmed(arg));
    if tail.len() > 0 {
        assert(t.skip(name.len() as int + 1) =~= tail.skip(1));
        assert(text::trim_left(tail) == text::trim_left(tail.skip(1)));
    } else {
        assert(text::trimmed(tail) =~= Seq::<char>::empty());
        assert(text::trimmed(arg) =~= Seq::<char>::empty());
    }
    assert(commands::command_arg(t) == text::trimmed(arg));
    if "vertical "@.is_prefix_of(t) {
        reveal_strlit("vertical ");
        reveal_strlit("vertical");
        let v = "vertical"@;
        let head = "vertical "@;
        assert(t.subrange(0, 9) == head);
        assert(solid(v));
        assert(t =~= v + t.skip(8)) by {
            assert forall|j: int| 0 <= j < 8 implies t[j] == v[j] by {
                assert(t[j] == t.subrange(0, 9)[j]);
            }
        }
        assert(t.skip(8)[0] == t.subrange(0, 9)[8]);
        lemma_word_len(v, t.skip(8));
        assert(commands::command_word(t) =~= v);
    }
    assert(commands::rewritten(t) == Some(t));
}

/// A line of a command's spelling and, after a space, an argument of the kind
/// that the table lists for it, is parsed.
pub proof fn lemma_every_line_is_parsed(
    i: int,
    k: int,
    arg: Seq<char>,
    home: Option<Seq<char>>,
    r: Result<ParsedCommand, CommandError>,
)
    requires
        0 <= i < command_table::verbs().len(),
        0 <= k < command_table::spellings(command_table::verbs()[i]).len(),
        listed(command_table::verbs()[i], text::trimmed(arg)),
        commands::means(
            command_table::spellings(command_table::verbs()[i])[k] + seq![' '] + arg,
            home,
            r,
        ),
    ensures
        r is Ok,
{
    lemma_line_is_obeyed(i, k, arg, home, r);
    lemma_every_command_is_parsed(
        command_table::verbs()[i],
        text::trimmed(arg),
        home,
        r,
    );
}

proof fn lemma_trim_right_starts(s: Seq<char>)
    ensures
        text::trim_right(s).len() <= s.len(),
        text::trim_right(s).len() > 0 ==> text::trim_right(s)[0] == s[0],
    decreases s.len(),
{
    if s.len() > 0 && text::is_white(s.last()) {
        lemma_trim_right_starts(s.drop_last());
    }
}

/// What the palette says of the commands that come in pairs.
pub proof fn lemma_descriptions_of_pairs()
    ensures
        command_table::description(Verb::Next) == "Next page (no overlap)"@,
        command_table::description(Verb::Prev) == "Previous page (no overlap)"@,
        command_table::description(Verb::First) == "Jump to first page"@,
        command_table::description(Verb::Last) == "Jump to last page"@,
        command_table::description(Verb::Top) == "Scroll to top of current page"@,
        command_table::description(Verb::Middle) == "Scroll to middle of current page"@,
        command_table::description(Verb::Bottom) == "Scroll to bottom of current page"@,
        command_table::description(Verb::Split) == "Horizontal split (optionally open a file)"@,
        command_table::description(Verb::VSplit) == "Vertical split (optionally open a file)"@,
        command_table::description(Verb::Sexplore) == "Horizontal split + file explorer"@,
        command_table::description(Verb::Vexplore) == "Vertical split + file explorer"@,
        command_table::description(Verb::Close) == "Close current window"@,
        command_table::description(Verb::Only) == "Close all other windows in current tab"@,
        command_table::description(Verb::TabClose) == "Close the current tab"@,
        command_table::description(Verb::TabOnly) == "Close all other tabs"@,
        command_table::description(Verb::BufferNext) == "Next buffer in list"@,
        command_table::description(Verb::BufferPrev) == "Previous buffer in list"@,
        command_table::description(Verb::Resize) == "Adjust current window height by \u{b1}N rows"@,
        command_table::description(Verb::VResize) == "Adjust current window width by \u{b1}N cols"@,
        command_table::description(Verb::Cache) == "Enable/disable page cache"@,
        command_table::description(Verb::CacheSize) == "Set RenderCache LRU capacity (pages)"@,
        command_table::description(Verb::ECache) == "Enable/disable encoded-frame cache"@,
        command_table::description(Verb::ECacheSize)
            == "Set encoded-frame cache capacity (frames)"@,
        command_table::description(Verb::Quit) == "Close current window (quit if last)"@,
        command_table::description(Verb::QuitAll) == "Quit svreader"@,
        command_table::description(Verb::Marks) == "Toggle bookmark list"@,
        command_table::description(Verb::Toc) == "Toggle table of contents"@,
        command_table::description(Verb::Back) == "Jump back in the jump list"@,
        command_table::description(Verb::Forward) == "Jump forward in the jump list"@,
{
}

} // verus!
