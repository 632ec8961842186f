//! The reader without a terminal: command-line arguments, key sequences and
//! the frames that keys lead to.
use vstd::prelude::*;

use crate::commands;
use crate::document::{Outline, PageError, PageMetrics};
use crate::keys::{self, Key, KeyOutcome, KeyParser, KeyParserState};
use crate::lists::{self, push_indent};
use crate::number::Real32;
use crate::reading::{self, repeat};
use crate::screen;
use crate::text::{self, find_char, from_chars, parse_u32, push_ordinal, push_str, same, to_chars};
use crate::viewport::{Viewport, ZoomMode};

verus! {

// ------------------------------ Arguments ------------------------------

/// Why a size was refused.
#[derive(Debug, Clone, Copy, PartialEq, Eq, Structural)]
pub enum SizeError {
    /// The `x` between the numbers is missing.
    NoSeparator,
    /// One of the parts is no number that fits.
    NotANumber,
}

/// The size that a text like `1200x800` stands for.
pub open spec fn size_of(s: Seq<char>) -> Result<(nat, nat), SizeError> {
    match text::find(s, 'x') {
        None => Err(SizeError::NoSeparator),
        Some(i) => match (
            text::unsigned_of(s.take(i), u32::MAX as nat),
            text::unsigned_of(s.skip(i + 1), u32::MAX as nat),
        ) {
            (Some(w), Some(h)) => Ok((w, h)),
            _ => Err(SizeError::NotANumber),
        },
    }
}

/// Read a size like `1200x800`.
pub fn parse_screen(s: &str) -> (r: Result<(u32, u32), SizeError>)
    ensures
        match size_of(s@) {
            Ok(e) => r matches Ok(x) && x.0 == e.0 && x.1 == e.1,
            Err(e) => r == Err::<(u32, u32), _>(e),
        },
{
    let cs: Vec<char> = to_chars(s);
    let n: usize = cs.len();
    assert(cs@.subrange(0, n as int) =~= cs@);
    let x: usize = find_char(&cs, 0, n, 'x');
    proof {
        text::lemma_find(s@, 'x');
    }
    if x == n {
        return Err(SizeError::NoSeparator);
    }
    assert(s@.take(x as int) =~= cs@.subrange(0, x as int));
    assert(s@.skip(x + 1) =~= cs@.subrange(x + 1, n as int));
    match (parse_u32(&cs, 0, x), parse_u32(&cs, x + 1, n)) {
        (Some(w), Some(h)) => Ok((w, h)),
        _ => Err(SizeError::NotANumber),
    }
}

/// A zoom as it is written on the command line.
#[derive(Debug)]
pub enum ZoomArg {
    Fit(ZoomMode),
    /// A number of percent, which is still to be read.
    Percent(String),
}

/// What a zoom argument stands for.
pub enum ZoomArgView {
    Fit(ZoomMode),
    Percent(Seq<char>),
}

/// The zoom that a text stands for.
pub open spec fn zoom_of(s: Seq<char>) -> Option<ZoomArgView> {
    if s == "fit-w"@ || s == "fitwidth"@ || s == "width"@ {
        Some(ZoomArgView::Fit(ZoomMode::FitWidth))
    } else if s == "fit-h"@ || s == "fitheight"@ || s == "height"@ {
        Some(ZoomArgView::Fit(ZoomMode::FitHeight))
    } else if s == "fit-p"@ || s == "fitpage"@ || s == "page"@ {
        Some(ZoomArgView::Fit(ZoomMode::FitPage))
    } else if s.len() > 0 && s.last() == '%' {
        Some(ZoomArgView::Percent(commands::without_percent(s)))
    } else {
        None
    }
}

/// Read a zoom: `fit-w`, `fit-h`, `fit-p` or a percentage. `None` for anything
/// else.
pub fn parse_zoom(s: &str) -> (r: Option<ZoomArg>)
    ensures
        match zoom_of(s@) {
            Some(ZoomArgView::Fit(z)) => r == Some(ZoomArg::Fit(z)),
            Some(ZoomArgView::Percent(p)) => r matches Some(ZoomArg::Percent(t)) && t@ == p,
            None => r is None,
        },
{
    if same(s, "fit-w") || same(s, "fitwidth") || same(s, "width") {
        return Some(ZoomArg::Fit(ZoomMode::FitWidth));
    }
    if same(s, "fit-h") || same(s, "fitheight") || same(s, "height") {
        return Some(ZoomArg::Fit(ZoomMode::FitHeight));
    }
    if same(s, "fit-p") || same(s, "fitpage") || same(s, "page") {
        return Some(ZoomArg::Fit(ZoomMode::FitPage));
    }
    let cs: Vec<char> = to_chars(s);
    let mut n: usize = cs.len();
    if n == 0 || cs[n - 1] != '%' {
        return None;
    }
    assert(cs@.take(n as int) =~= cs@);
    while n > 0 && cs[n - 1] == '%'
        invariant
            n <= cs@.len(),
            commands::without_percent(cs@) == commands::without_percent(cs@.take(n as int)),
        decreases n,
    {
        let ghost t = cs@.take(n as int);
        assert(t.last() == cs@[n - 1]);
        assert(t.drop_last() =~= cs@.take(n - 1));
        n -= 1;
    }
    let ghost t = cs@.take(n as int);
    assert(n > 0 ==> t.last() == cs@[n - 1]);
    let p: String = from_chars(&cs, 0, n);
    assert(p@ =~= t);
    Some(ZoomArg::Percent(p))
}

// ------------------------------ Key sequences ------------------------------

/// Why a key sequence was refused.
#[derive(Debug, PartialEq, Eq)]
pub enum KeySequenceError {
    /// A `<` is not closed.
    Unclosed,
    /// The name of a key between `<` and `>` is not known.
    UnknownKey(String),
}

/// What a refusal stands for.
pub enum KeySequenceErrorView {
    Unclosed,
    UnknownKey(Seq<char>),
}

impl View for KeySequenceError {
    type V = KeySequenceErrorView;

    open spec fn view(&self) -> KeySequenceErrorView {
        match self {
            KeySequenceError::Unclosed => KeySequenceErrorView::Unclosed,
            KeySequenceError::UnknownKey(t) => KeySequenceErrorView::UnknownKey(t@),
        }
    }
}

/// The key that a name stands for.
pub open spec fn named_key(t: Seq<char>) -> Option<Key> {
    if t == "Esc"@ {
        Some(Key::Esc)
    } else if t == "Enter"@ || t == "CR"@ {
        Some(Key::Enter)
    } else if t == "Tab"@ {
        Some(Key::Tab)
    } else if t == "S-Tab"@ {
        Some(Key::BackTab)
    } else if t == "Up"@ {
        Some(Key::Up)
    } else if t == "Down"@ {
        Some(Key::Down)
    } else if t == "Left"@ {
        Some(Key::Left)
    } else if t == "Right"@ {
        Some(Key::Right)
    } else if t == "PageUp"@ {
        Some(Key::PageUp)
    } else if t == "PageDown"@ {
        Some(Key::PageDown)
    } else if t == "Home"@ {
        Some(Key::Home)
    } else if t == "End"@ {
        Some(Key::End)
    } else if t.len() == 3 && t[0] == 'C' && t[1] == '-' && '\u{80}' > t[2] {
        Some(Key::Ctrl(t[2]))
    } else {
        None
    }
}

/// The key that a name like `Esc` or `C-f` stands for.
pub fn parse_special(token: &str) -> (r: Option<Key>)
    ensures
        r == named_key(token@),
{
    if same(token, "Esc") {
        Some(Key::Esc)
    } else if same(token, "Enter") || same(token, "CR") {
        Some(Key::Enter)
    } else if same(token, "Tab") {
        Some(Key::Tab)
    } else if same(token, "S-Tab") {
        Some(Key::BackTab)
    } else if same(token, "Up") {
        Some(Key::Up)
    } else if same(token, "Down") {
        Some(Key::Down)
    } else if same(token, "Left") {
        Some(Key::Left)
    } else if same(token, "Right") {
        Some(Key::Right)
    } else if same(token, "PageUp") {
        Some(Key::PageUp)
    } else if same(token, "PageDown") {
        Some(Key::PageDown)
    } else if same(token, "Home") {
        Some(Key::Home)
    } else if same(token, "End") {
        Some(Key::End)
    } else {
        let cs: Vec<char> = to_chars(token);
        if cs.len() == 3 && cs[0] == 'C' && cs[1] == '-' && '\u{80}' > cs[2] {
            Some(Key::Ctrl(cs[2]))
        } else {
            None
        }
    }
}

/// The keys of a sequence like `3j<C-f>gg`.
pub open spec fn key_sequence(s: Seq<char>) -> Result<Seq<Key>, KeySequenceErrorView>
    decreases s.len(),
{
    if s.len() == 0 {
        Ok(Seq::empty())
    } else if s[0] != '<' {
        match key_sequence(s.skip(1)) {
            Ok(ks) => Ok(seq![Key::Char(s[0])] + ks),
            Err(e) => Err(e),
        }
    } else {
        match text::find(s, '>') {
            None => Err(KeySequenceErrorView::Unclosed),
            Some(i) => if 1 <= i < s.len() {
                match named_key(s.subrange(1, i)) {
                    None => Err(KeySequenceErrorView::UnknownKey(s.subrange(1, i))),
                    Some(k) => match key_sequence(s.skip(i + 1)) {
                        Ok(ks) => Ok(seq![k] + ks),
                        Err(e) => Err(e),
                    },
                }
            } else {
                Err(KeySequenceErrorView::Unclosed)
            },
        }
    }
}

/// A sequence that goes on after the keys `done`.
pub open spec fn after_keys(
    done: Seq<Key>,
    rest: Result<Seq<Key>, KeySequenceErrorView>,
) -> Result<Seq<Key>, KeySequenceErrorView> {
    match rest {
        Ok(ks) => Ok(done + ks),
        Err(e) => Err(e),
    }
}

proof fn lemma_one_more(done: Seq<Key>, k: Key, rest: Seq<Key>)
    ensures
        done + (seq![k] + rest) == done.push(k) + rest,
{
    assert(done + (seq![k] + rest) =~= done.push(k) + rest);
}

/// Read a key sequence: plain characters, and names between `<` and `>`.
pub fn parse_key_sequence(s: &str) -> (r: Result<Vec<Key>, KeySequenceError>)
    ensures
        match key_sequence(s@) {
            Ok(ks) => r matches Ok(v) && v@ == ks,
            Err(e) => r matches Err(x) && x@ == e,
        },
{
    let cs: Vec<char> = to_chars(s);
    let n: usize = cs.len();
    let mut keys: Vec<Key> = Vec::new();
    let mut i: usize = 0;
    let ghost whole = key_sequence(cs@);
    proof {
        assert(cs@.skip(0) =~= cs@);
        if whole is Ok {
            assert(keys@ + whole->Ok_0 =~= whole->Ok_0);
        }
    }
    while i < n
        invariant
            i <= n == cs@.len(),
            cs@ == s@,
            whole == key_sequence(s@),
            whole == after_keys(keys@, key_sequence(cs@.skip(i as int))),
        decreases n - i,
    {
        let ghost rest = cs@.skip(i as int);
        let ghost sofar = keys@;
        if cs[i] != '<' {
            let key: Key = Key::Char(cs[i]);
            keys.push(key);
            proof {
                assert(rest[0] == cs@[i as int]);
                assert(key == Key::Char(rest[0]));
                assert(rest.skip(1) =~= cs@.skip(i + 1));
                let k = key_sequence(rest.skip(1));
                if k is Ok {
                    lemma_one_more(sofar, key, k->Ok_0);
                }
            }
            i += 1;
        } else {
            assert(cs@.subrange(i as int, n as int) =~= rest);
            let end: usize = find_char(&cs, i, n, '>');
            proof {
                text::lemma_find(rest, '>');
                assert(rest[0] == '<');
            }
            if end == n {
                return Err(KeySequenceError::Unclosed);
            }
            let token: String = from_chars(&cs, i + 1, end);
            assert(token@ =~= rest.subrange(1, end - i));
            match parse_special(token.as_str()) {
                None => {
                    return Err(KeySequenceError::UnknownKey(token));
                },
                Some(k) => {
                    keys.push(k);
                    proof {
                        assert(rest.skip(end - i + 1) =~= cs@.skip(end + 1));
                        let ks = key_sequence(rest.skip(end - i + 1));
                        if ks is Ok {
                            lemma_one_more(sofar, k, ks->Ok_0);
                        }
                    }
                    i = end + 1;
                },
            }
        }
    }
    proof {
        assert(cs@.skip(i as int) =~= Seq::empty());
        assert(keys@ + Seq::<Key>::empty() =~= keys@);
    }
    Ok(keys)
}

// ------------------------------ Simulation ------------------------------

/// The frames that keys lead to, from a view and a state of the key parser:
/// one view for each action. A failing action ends them, and so does `q`.
pub open spec fn simulated<D: PageMetrics, F: Fn(Real32, Real32) -> Real32>(
    doc: &D,
    state: KeyParserState,
    v: Viewport,
    ks: Seq<Key>,
    times: &F,
    frames: Seq<Viewport>,
    e: Option<PageError>,
) -> bool
    decreases ks.len(),
{
    if ks.len() == 0 {
        frames.len() == 0 && e is None
    } else {
        let (next, out) = keys::fed(state, ks[0]);
        match out {
            KeyOutcome::Quit => frames.len() == 0 && e is None,
            KeyOutcome::Action { action, count } => exists|w: Viewport, x: Option<PageError>|
                {
                    &&& #[trigger] reading::repeated(doc, v, action, times, count as nat, w, x)
                    &&& match x {
                        Some(_) => frames.len() == 0 && e == x,
                        None => {
                            &&& frames.len() > 0
                            &&& frames[0] == w
                            &&& simulated(doc, next, w, ks.skip(1), times, frames.skip(1), e)
                        },
                    }
                },
            _ => simulated(doc, next, v, ks.skip(1), times, frames, e),
        }
    }
}

/// Replay keys and collect the views that they lead to.
pub fn simulate<D: PageMetrics, F: Fn(Real32, Real32) -> Real32>(
    doc: &D,
    start: Viewport,
    ks: &Vec<Key>,
    times: &F,
) -> (r: (Vec<Viewport>, Option<PageError>))
    requires
        forall|a: Real32, b: Real32| call_requires(times, (a, b)),
    ensures
        simulated(doc, KeyParserState::cleared(), start, ks@, times, r.0@, r.1),
{
    let mut frames: Vec<Viewport> = Vec::new();
    let mut state: KeyParserState = KeyParserState::default();
    let mut v: Viewport = start;
    let n: usize = ks.len();
    let mut i: usize = 0;
    let ghost begin = state;
    proof {
        assert(ks@.skip(0) =~= ks@);
        assert forall|fs: Seq<Viewport>, e: Option<PageError>| #[trigger]
            simulated(doc, state, v, ks@.skip(0), times, fs, e) implies simulated(
            doc,
            begin,
            start,
            ks@,
            times,
            frames@ + fs,
            e,
        ) by {
            assert(frames@ + fs =~= fs);
        }
    }
    while i < n
        invariant
            i <= n == ks@.len(),
            forall|a: Real32, b: Real32| call_requires(times, (a, b)),
            forall|fs: Seq<Viewport>, e: Option<PageError>| #[trigger]
                simulated(doc, state, v, ks@.skip(i as int), times, fs, e) ==> simulated(
                    doc,
                    begin,
                    start,
                    ks@,
                    times,
                    frames@ + fs,
                    e,
                ),
            begin == KeyParserState::cleared(),
        decreases n - i,
    {
        let ghost rest = ks@.skip(i as int);
        let ghost was = state;
        let ghost sofar = frames@;
        let ghost from = v;
        assert(rest[0] == ks@[i as int]);
        assert(rest.skip(1) =~= ks@.skip(i + 1));
        let out: KeyOutcome = KeyParser::feed(&mut state, ks[i]);
        match out {
            KeyOutcome::Quit => {
                proof {
                    assert(simulated(doc, was, from, rest, times, Seq::empty(), None));
                    assert(sofar + Seq::<Viewport>::empty() =~= sofar);
                }
                return (frames, None);
            },
            KeyOutcome::Action { action, count } => {
                let x: Option<PageError> = repeat(doc, &mut v, action, count, times);
                assert(reading::repeated(doc, from, action, times, count as nat, v, x));
                if x.is_some() {
                    proof {
                        assert(simulated(doc, was, from, rest, times, Seq::empty(), x));
                        assert(sofar + Seq::<Viewport>::empty() =~= sofar);
                    }
                    return (frames, x);
                }
                frames.push(v);
                proof {
                    assert forall|fs: Seq<Viewport>, e: Option<PageError>| #[trigger]
                        simulated(doc, state, v, ks@.skip(i + 1), times, fs, e) implies simulated(
                        doc,
                        begin,
                        start,
                        ks@,
                        times,
                        frames@ + fs,
                        e,
                    ) by {
                        let all = seq![v] + fs;
                        assert(all.skip(1) =~= fs);
                        assert(simulated(doc, was, from, rest, times, all, e));
                        assert(sofar + all =~= frames@ + fs);
                    }
                }
            },
            _ => {
                proof {
                    assert forall|fs: Seq<Viewport>, e: Option<PageError>| #[trigger]
                        simulated(doc, state, v, ks@.skip(i + 1), times, fs, e) implies simulated(
                        doc,
                        begin,
                        start,
                        ks@,
                        times,
                        frames@ + fs,
                        e,
                    ) by {
                        assert(simulated(doc, was, from, rest, times, fs, e));
                    }
                }
            },
        }
        i += 1;
    }
    proof {
        assert(simulated(doc, state, v, ks@.skip(i as int), times, Seq::empty(), None));
        assert(frames@ + Seq::<Viewport>::empty() =~= frames@);
    }
    (frames, None)
}

// ------------------------------ Outline ------------------------------

/// The line of a node of an outline.
pub open spec fn node_text(item: Outline, depth: int) -> Seq<char> {
    lists::indent(depth as nat) + item.title@ + (match item.page {
        Some(p) => " p"@ + text::decimal((p + 1) as nat),
        None => Seq::empty(),
    })
}

/// The lines of an outline: each node, then what is below it.
pub open spec fn outline_lines(items: Seq<Outline>, depth: int) -> Seq<Seq<char>>
    decreases items,
{
    if items.len() == 0 {
        Seq::empty()
    } else {
        let item = items[items.len() - 1];
        outline_lines(items.subrange(0, items.len() - 1), depth) + seq![node_text(item, depth)]
            + outline_lines(item.children@, lists::deeper(depth))
    }
}

/// Append the lines of an outline.
pub fn print_outline(items: &Vec<Outline>, depth: usize, out: &mut Vec<String>)
    ensures
        screen::texts(final(out)@) == screen::texts(old(out)@) + outline_lines(items@, depth as int),
    decreases items,
{
    let ghost before = screen::texts(out@);
    let n: usize = items.len();
    let mut i: usize = 0;
    assert(before =~= before + outline_lines(items@.subrange(0, 0), depth as int));
    while i < n
        invariant
            i <= n == items@.len(),
            screen::texts(out@) == before + outline_lines(items@.subrange(0, i as int), depth as int),
        decreases n - i,
    {
        let ghost part = items@.subrange(0, i + 1);
        let ghost sofar = screen::texts(out@);
        let item: &Outline = &items[i];
        proof {
            assert(part.subrange(0, part.len() - 1) =~= items@.subrange(0, i as int));
            assert(part[part.len() - 1] == *item);
        }
        let mut line: String = String::new();
        push_indent(&mut line, depth);
        assert(line@ =~= lists::indent(depth as nat));
        push_str(&mut line, item.title.as_str());
        match item.page {
            Some(p) => {
                let ghost head = line@;
                push_str(&mut line, " p");
                push_ordinal(&mut line, p);
                assert(line@ =~= head + (" p"@ + text::decimal((p + 1) as nat)));
            },
            None => {
                assert(line@ =~= line@ + Seq::empty());
            },
        }
        out.push(line);
        assert(screen::texts(out@) =~= sofar + seq![node_text(*item, depth as int)]);
        let below: usize = if depth == usize::MAX {
            depth
        } else {
            depth + 1
        };
        proof {
            assert(decreases_to!(items => items@[i as int].children));
        }
        print_outline(&item.children, below, out);
        assert(screen::texts(out@) =~= before + outline_lines(part, depth as int));
        i += 1;
    }
    assert(items@.subrange(0, n as int) =~= items@);
}

} // verus!
