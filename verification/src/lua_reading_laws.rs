//! What the parts of a Lua table mean.
use vstd::prelude::*;

use crate::lua::{self, Key, Lua, LuaError};
use crate::text;

verus! {

/// A comment up to the end of its line is passed over.
pub proof fn lemma_line_comment(comment: Seq<char>, s: Seq<char>)
    requires
        forall|i: int| 0 <= i < comment.len() ==> #[trigger] comment[i] != '\n',
        comment.len() > 0 ==> comment[0] != '[',
    ensures
        lua::skipped(seq!['-', '-'] + comment + seq!['\n'] + s) == lua::skipped(s),
{
    let all = seq!['-', '-'] + comment + seq!['\n'] + s;
    let rest = comment + seq!['\n'] + s;
    assert(all[0] == '-' && all[1] == '-');
    if comment.len() > 0 {
        assert(all[2] == comment[0]);
    } else {
        assert(all[2] == '\n');
    }
    assert(all.skip(2) =~= rest);
    lemma_after_line(comment, s);
}

proof fn lemma_after_line(comment: Seq<char>, s: Seq<char>)
    requires
        forall|i: int| 0 <= i < comment.len() ==> #[trigger] comment[i] != '\n',
    ensures
        lua::after_line(comment + seq!['\n'] + s) == s,
    decreases comment.len(),
{
    let all = comment + seq!['\n'] + s;
    if comment.len() == 0 {
        assert(all[0] == '\n');
        assert(all.skip(1) =~= s);
    } else {
        let less = comment.skip(1);
        assert forall|i: int| 0 <= i < less.len() implies #[trigger] less[i] != '\n' by {
            assert(less[i] == comment[i + 1]);
        }
        lemma_after_line(less, s);
        assert(all[0] == comment[0]);
        assert(all.skip(1) =~= less + seq!['\n'] + s);
    }
}

/// A comment in double square brackets is passed over up to where they close.
pub proof fn lemma_block_comment(comment: Seq<char>, s: Seq<char>)
    requires
        forall|i: int| 0 <= i < comment.len() ==> #[trigger] comment[i] != ']',
    ensures
        lua::skipped(seq!['-', '-', '[', '['] + comment + seq![']', ']'] + s) == lua::skipped(s),
{
    let all = seq!['-', '-', '[', '['] + comment + seq![']', ']'] + s;
    assert(all[0] == '-' && all[1] == '-' && all[2] == '[' && all[3] == '[');
    assert(all.skip(4) =~= comment + seq![']', ']'] + s);
    lemma_after_block(comment, s);
}

proof fn lemma_after_block(comment: Seq<char>, s: Seq<char>)
    requires
        forall|i: int| 0 <= i < comment.len() ==> #[trigger] comment[i] != ']',
    ensures
        lua::after_block(comment + seq![']', ']'] + s) == s,
    decreases comment.len(),
{
    let all = comment + seq![']', ']'] + s;
    if comment.len() == 0 {
        assert(all[0] == ']' && all[1] == ']');
        assert(all.skip(2) =~= s);
    } else {
        let less = comment.skip(1);
        assert forall|i: int| 0 <= i < less.len() implies #[trigger] less[i] != ']' by {
            assert(less[i] == comment[i + 1]);
        }
        lemma_after_block(less, s);
        assert(all[0] == comment[0]);
        assert(all.skip(1) =~= less + seq![']', ']'] + s);
    }
}

/// The escapes: letters for what cannot be seen, two hexadecimal digits after
/// an x, up to three decimal digits, and any other character for itself.
pub proof fn lemma_escapes(s: Seq<char>, c: char)
    ensures
        lua::escape(seq!['n'] + s) == Some(('\n', 1int)),
        lua::escape(seq!['r'] + s) == Some(('\r', 1int)),
        lua::escape(seq!['t'] + s) == Some(('\t', 1int)),
        lua::escape(seq!['"'] + s) == Some(('"', 1int)),
        lua::escape(seq!['\''] + s) == Some(('\'', 1int)),
        lua::escape(seq!['\\'] + s) == Some(('\\', 1int)),
        lua::escape(seq!['0'] + s) == Some(('\0', 1int)),
        lua::escape(Seq::empty()) is None,
{
    assert((seq!['n'] + s)[0] == 'n');
    assert((seq!['r'] + s)[0] == 'r');
    assert((seq!['t'] + s)[0] == 't');
    assert((seq!['"'] + s)[0] == '"');
    assert((seq!['\''] + s)[0] == '\'');
    assert((seq!['\\'] + s)[0] == '\\');
    assert((seq!['0'] + s)[0] == '0');
}

/// The value of two hexadecimal digits, capital or not.
pub proof fn lemma_hex_escape(a: char, b: char, s: Seq<char>, x: int, y: int)
    requires
        0 <= x < 16 && 0 <= y < 16,
        lua::hex_digit(a) == Some(x),
        lua::hex_digit(b) == Some(y),
    ensures
        lua::escape(seq!['x', a, b] + s) == Some(((16 * x + y) as char, 3int)),
        lua::hex_digit('0') == Some(0int) && lua::hex_digit('9') == Some(9int),
        lua::hex_digit('a') == Some(10int) && lua::hex_digit('f') == Some(15int),
        lua::hex_digit('A') == Some(10int) && lua::hex_digit('F') == Some(15int),
{
    let t = seq!['x', a, b] + s;
    assert(t[0] == 'x' && t[1] == a && t[2] == b);
}

/// Two decimal digits, with none after them.
pub proof fn lemma_decimal_escape(a: char, b: char, s: Seq<char>)
    requires
        '1' <= a <= '9',
        '0' <= b <= '9',
        s.len() == 0 || !('0' <= s[0] <= '9'),
    ensures
        lua::escape(seq![a, b] + s) == Some(
            ((10 * (a as int - '0' as int) + (b as int - '0' as int)) as char, 2int),
        ),
{
    let t = seq![a, b] + s;
    assert(t[0] == a && t[1] == b);
    assert(t.skip(1).skip(1) =~= s);
    assert(t.skip(1)[0] == b);
    reveal_with_fuel(text::digit_run, 3);
    assert(text::digit_run(s) == 0);
    assert(text::digit_run(t) == 2);
    let d = t.take(2);
    assert(d =~= seq![a, b]);
    reveal_with_fuel(text::digits_value, 3);
    assert(d.drop_last() =~= seq![a]);
    assert(seq![a].drop_last() =~= Seq::<char>::empty());
}

/// A text in quotes, single or double, is what stands between them, where it
/// holds neither that quote nor a backslash.
pub proof fn lemma_plain_text(body: Seq<char>, quote: char, s: Seq<char>)
    requires
        quote == '"' || quote == '\'',
        forall|i: int| 0 <= i < body.len() ==> #[trigger] body[i] != quote && body[i] != '\\',
    ensures
        lua::value(seq![quote] + body + seq![quote] + s) == Ok::<(Lua, Seq<char>), LuaError>(
            (Lua::Text(body), s),
        ),
{
    let all = seq![quote] + body + seq![quote] + s;
    assert(all[0] == quote);
    assert(lua::skipped(all) == all);
    assert(all.skip(1) =~= body + seq![quote] + s);
    lemma_quoted(body, quote, s);
}

proof fn lemma_quoted(body: Seq<char>, quote: char, s: Seq<char>)
    requires
        quote != '\\',
        forall|i: int| 0 <= i < body.len() ==> #[trigger] body[i] != quote && body[i] != '\\',
    ensures
        lua::quoted(body + seq![quote] + s, quote) == Ok::<(Seq<char>, Seq<char>), LuaError>(
            (body, s),
        ),
    decreases body.len(),
{
    let all = body + seq![quote] + s;
    if body.len() == 0 {
        assert(all[0] == quote);
        assert(all.skip(1) =~= s);
        assert(body =~= Seq::<char>::empty());
    } else {
        let less = body.skip(1);
        assert forall|i: int| 0 <= i < less.len() implies #[trigger] less[i] != quote && less[i]
            != '\\' by {
            assert(less[i] == body[i + 1]);
        }
        lemma_quoted(less, quote, s);
        assert(all[0] == body[0]);
        assert(all.skip(1) =~= less + seq![quote] + s);
        assert(seq![body[0]] + less =~= body);
    }
}

/// The word at the start of a text, up to what no word holds.
proof fn lemma_ident(name: Seq<char>, s: Seq<char>)
    requires
        forall|i: int| 0 <= i < name.len() ==> lua::in_word(#[trigger] name[i]),
        s.len() == 0 || !lua::in_word(s[0]),
    ensures
        lua::ident_len(name + s) == name.len(),
    decreases name.len(),
{
    let all = name + s;
    if name.len() == 0 {
        assert(all =~= s);
    } else {
        let less = name.skip(1);
        assert forall|i: int| 0 <= i < less.len() implies lua::in_word(#[trigger] less[i]) by {
            assert(less[i] == name[i + 1]);
        }
        lemma_ident(less, s);
        assert(all[0] == name[0]);
        assert(all.skip(1) =~= less + s);
    }
}

/// The words that are values.
pub proof fn lemma_words(s: Seq<char>)
    requires
        s.len() == 0 || !lua::in_word(s[0]),
    ensures
        lua::value("true"@ + s) == Ok::<(Lua, Seq<char>), LuaError>((Lua::Bool(true), s)),
        lua::value("false"@ + s) == Ok::<(Lua, Seq<char>), LuaError>((Lua::Bool(false), s)),
        lua::value("nil"@ + s) == Ok::<(Lua, Seq<char>), LuaError>((Lua::Nil, s)),
{
    reveal_strlit("true");
    reveal_strlit("false");
    reveal_strlit("nil");
    let a = "true"@;
    let b = "false"@;
    let c = "nil"@;
    assert(a[0] == 't' && a[1] == 'r' && a[2] == 'u' && a[3] == 'e');
    assert(b[0] == 'f' && b[1] == 'a' && b[2] == 'l' && b[3] == 's' && b[4] == 'e');
    assert(c[0] == 'n' && c[1] == 'i' && c[2] == 'l');
    lemma_ident(a, s);
    lemma_ident(b, s);
    lemma_ident(c, s);
    assert((a + s)[0] == 't' && (b + s)[0] == 'f' && (c + s)[0] == 'n');
    assert((a + s).take(4) =~= a && (a + s).skip(4) =~= s);
    assert((b + s).take(5) =~= b && (b + s).skip(5) =~= s);
    assert((c + s).take(3) =~= c && (c + s).skip(3) =~= s);
    assert(lua::skipped(a + s) == a + s);
    assert(lua::skipped(b + s) == b + s);
    assert(lua::skipped(c + s) == c + s);
}

/// An entry without a key has the next number as its key. A name before an
/// equals sign is the key of its entry.
pub proof fn lemma_entry_keys(name: Seq<char>, s: Seq<char>, next: int, digit: char)
    requires
        name.len() > 0,
        lua::starts_word(name[0]),
        forall|i: int| 0 <= i < name.len() ==> lua::in_word(#[trigger] name[i]),
        '0' <= digit <= '9',
    ensures
        lua::entry_key(name + seq!['='] + s, next) == Ok::<(Key, Seq<char>, int), LuaError>(
            (Key::Text(name), s, next),
        ),
        lua::entry_key(seq![digit] + s, next) == Ok::<(Key, Seq<char>, int), LuaError>(
            (Key::Int(next), seq![digit] + s, next + 1),
        ),
{
    let tail = seq!['='] + s;
    let all = name + seq!['='] + s;
    assert(all =~= name + tail);
    assert(tail[0] == '=');
    lemma_ident(name, tail);
    assert(all[0] == name[0]);
    assert(all.take(name.len() as int) =~= name);
    assert(all.skip(name.len() as int) =~= tail);
    assert(lua::skipped(tail) == tail);
    assert(tail.skip(1) =~= s);
    assert((seq![digit] + s)[0] == digit);
}

/// The entries of a table without keys are numbered from 1.
pub proof fn lemma_numbered_from_one(body: Seq<char>)
    requires
        forall|i: int| 0 <= i < body.len() ==> #[trigger] body[i] != '"' && body[i] != '\\',
    ensures
        lua::value(seq!['{', '"'] + body + seq!['"', '}']) == Ok::<(Lua, Seq<char>), LuaError>(
            (Lua::Table(seq![(Key::Int(1), Lua::Text(body))]), Seq::empty()),
        ),
{
    let all = seq!['{', '"'] + body + seq!['"', '}'];
    let inner = seq!['"'] + body + seq!['"', '}'];
    let none = Seq::<char>::empty();
    assert(all[0] == '{');
    assert(lua::skipped(all) == all);
    assert(all.skip(1) =~= inner);
    assert(inner[0] == '"');
    assert(lua::skipped(inner) == inner);
    let close = seq!['}'];
    assert(seq!['"'] + body + seq!['"'] + close =~= inner);
    lemma_plain_text(body, '"', close);
    assert(close[0] == '}');
    assert(lua::skipped(close) == close);
    assert(close.skip(1) =~= none);
    assert(lua::entry_key(inner, 1) == Ok::<(Key, Seq<char>, int), LuaError>(
        (Key::Int(1), inner, 2),
    ));
    assert(lua::entries(inner, 1) == Ok::<(Seq<(Key, Lua)>, Seq<char>), LuaError>(
        (seq![(Key::Int(1), Lua::Text(body))], none),
    ));
}

} // verus!
