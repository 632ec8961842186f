//! What is written is read back.
use vstd::prelude::*;

use crate::lua::{self, Key, Lua, LuaError};
use crate::text;

verus! {

/// A number that reads as one token.
pub open spec fn is_number_token(s: Seq<char>) -> bool {
    &&& s.len() > 0
    &&& (s[0] == '-' || text::is_digit(s[0]))
    &&& forall|i: int| 0 <= i < s.len() ==> lua::in_number(#[trigger] s[i])
    &&& text::is_float(s)
}

/// A key that can be written: any text, any 64-bit integer, and numbers that
/// are not plain integers.
pub open spec fn writable_key(k: Key) -> bool {
    match k {
        Key::Text(_) => true,
        Key::Int(n) => i64::MIN <= n <= i64::MAX,
        Key::Numeral(s) => is_number_token(s) && lua::number_key(s) == k,
    }
}

/// A value that can be written: all its numbers are numbers.
pub open spec fn writable(v: Lua) -> bool
    decreases v, 0int,
{
    match v {
        Lua::Number(s) => is_number_token(s),
        Lua::Table(es) => writable_entries(es),
        _ => true,
    }
}

/// Entries that can be written.
pub open spec fn writable_entries(es: Seq<(Key, Lua)>) -> bool
    decreases es, 1int,
{
    es.len() > 0 ==> writable_key(es[0].0) && writable(es[0].1) && writable_entries(es.skip(1))
}

/// Spaces only.
pub open spec fn is_pad(s: Seq<char>) -> bool {
    forall|i: int| 0 <= i < s.len() ==> #[trigger] s[i] == ' '
}

/// A text before which a number or a word ends: nothing, or something that
/// cannot belong to it.
pub open spec fn ends_token(s: Seq<char>) -> bool {
    s.len() > 0 ==> !lua::in_number(s[0]) && !lua::in_word(s[0])
}

/// A text that starts with a token, not with white space or a comment.
pub open spec fn starts_token(s: Seq<char>) -> bool {
    s.len() > 0 && !lua::is_space(s[0]) && !lua::is_comment(s)
}

proof fn lemma_skip_token(s: Seq<char>)
    requires
        starts_token(s),
    ensures
        lua::skipped(s) == s,
{
}

proof fn lemma_skip_pad(pad: Seq<char>, s: Seq<char>)
    requires
        is_pad(pad),
    ensures
        lua::skipped(pad + s) == lua::skipped(s),
    decreases pad.len(),
{
    if pad.len() == 0 {
        assert(pad + s == s);
    } else {
        assert((pad + s)[0] == pad[0]);
        assert((pad + s).skip(1) == pad.skip(1) + s);
        assert(is_pad(pad.skip(1)));
        lemma_skip_pad(pad.skip(1), s);
    }
}

proof fn lemma_skip_line_break(pad: Seq<char>, s: Seq<char>)
    requires
        is_pad(pad),
    ensures
        lua::skipped(seq!['\n'] + pad + s) == lua::skipped(s),
{
    let all = seq!['\n'] + pad + s;
    assert(all.skip(1) == pad + s);
    lemma_skip_pad(pad, s);
}

proof fn lemma_number_len(token: Seq<char>, b: Seq<char>)
    requires
        forall|i: int| 0 <= i < token.len() ==> lua::in_number(#[trigger] token[i]),
        ends_token(b),
    ensures
        lua::number_len(token + b) == token.len(),
    decreases token.len(),
{
    if token.len() == 0 {
        assert(token + b == b);
    } else {
        assert((token + b)[0] == token[0]);
        assert((token + b).skip(1) == token.skip(1) + b);
        lemma_number_len(token.skip(1), b);
    }
}

proof fn lemma_ident_len(token: Seq<char>, b: Seq<char>)
    requires
        forall|i: int| 0 <= i < token.len() ==> lua::in_word(#[trigger] token[i]),
        ends_token(b),
    ensures
        lua::ident_len(token + b) == token.len(),
    decreases token.len(),
{
    if token.len() == 0 {
        assert(token + b == b);
    } else {
        assert((token + b)[0] == token[0]);
        assert((token + b).skip(1) == token.skip(1) + b);
        lemma_ident_len(token.skip(1), b);
    }
}

proof fn lemma_number_no_comment(s: Seq<char>)
    requires
        is_number_token(s),
        s[0] == '-',
    ensures
        s.len() > 1,
        s[1] != '-',
{
    let body = s.skip(1);
    text::lemma_digit_run(body);
    if text::is_numeral(body) {
        assert(body.len() > 0);
        assert(body[0] == s[1]);
    } else {
        reveal_strlit("inf");
        reveal_strlit("infinity");
        reveal_strlit("nan");
        lemma_lowered_len(body);
        assert(body[0] == s[1]);
        lemma_lowered_first(body);
    }
}

proof fn lemma_lowered_len(s: Seq<char>)
    ensures
        text::lowered(s).len() == s.len(),
    decreases s.len(),
{
    if s.len() > 0 {
        lemma_lowered_len(s.drop_last());
    }
}

proof fn lemma_lowered_first(s: Seq<char>)
    requires
        s.len() > 0,
    ensures
        text::lowered(s).len() == s.len(),
        text::lowered(s)[0] == text::lower(s[0]),
    decreases s.len(),
{
    lemma_lowered_len(s);
    lemma_lowered_len(s.drop_last());
    if s.len() > 1 {
        lemma_lowered_first(s.drop_last());
        assert(s.drop_last()[0] == s[0]);
    }
}

proof fn lemma_number_reads_back(s: Seq<char>, b: Seq<char>)
    requires
        is_number_token(s),
        ends_token(b),
    ensures
        lua::value(s + b) == Ok::<(Lua, Seq<char>), LuaError>((Lua::Number(s), b)),
{
    let all = s + b;
    assert(all[0] == s[0]);
    if s[0] == '-' {
        lemma_number_no_comment(s);
        assert(all[1] == s[1]);
    }
    lemma_skip_token(all);
    lemma_number_len(s, b);
    assert(all.take(s.len() as int) == s);
    assert(all.skip(s.len() as int) == b);
}

proof fn lemma_word_reads_back(s: Seq<char>, v: Lua, b: Seq<char>)
    requires
        (s == "true"@ && v == Lua::Bool(true)) || (s == "false"@ && v == Lua::Bool(false)) || (s
            == "nil"@ && v == Lua::Nil),
        ends_token(b),
    ensures
        lua::value(s + b) == Ok::<(Lua, Seq<char>), LuaError>((v, b)),
{
    reveal_strlit("true");
    reveal_strlit("false");
    reveal_strlit("nil");
    let all = s + b;
    assert(all[0] == s[0]);
    assert(text::is_letter(s[0]));
    lemma_skip_token(all);
    assert forall|i: int| 0 <= i < s.len() implies lua::in_word(#[trigger] s[i]) by {}
    lemma_ident_len(s, b);
    assert(all.take(s.len() as int) == s);
    assert(all.skip(s.len() as int) == b);
    assert("true"@[0] != "false"@[0] && "true"@[0] != "nil"@[0] && "false"@[0] != "nil"@[0]);
}

proof fn lemma_escape_reads_back(c: char, b: Seq<char>)
    requires
        lua::escaped_char(c).len() > 1,
    ensures
        lua::escaped_char(c)[0] == '\\',
        lua::escape((lua::escaped_char(c) + b).skip(1)) == Some(
            (c, lua::escaped_char(c).len() - 1),
        ),
{
    let e = lua::escaped_char(c);
    let t = (e + b).skip(1);
    assert(t[0] == e[1]);
    if e.len() == 4 {
        let n = c as int;
        assert(t[1] == e[2]);
        assert(t[2] == e[3]);
        assert(n / 16 < 2);
        assert(lua::hex_digit(lua::hex_char(n / 16)) == Some(n / 16));
        assert(lua::hex_digit(lua::hex_char(n % 16)) == Some(n % 16));
        assert(lua::hex_pair(t[1], t[2]) == 16 * (n / 16) + n % 16);
        assert(16 * (n / 16) + n % 16 == n);
    }
}

proof fn lemma_quoted_reads_back(s: Seq<char>, b: Seq<char>)
    ensures
        lua::quoted(lua::escaped(s) + seq!['"'] + b, '"') == Ok::<
            (Seq<char>, Seq<char>),
            LuaError,
        >((s, b)),
    decreases s.len(),
{
    let tail = seq!['"'] + b;
    let all = lua::escaped(s) + seq!['"'] + b;
    if s.len() == 0 {
        assert(all == tail);
        assert(tail.skip(1) == b);
        assert(s == Seq::<char>::empty());
    } else {
        let c = s[0];
        let e = lua::escaped_char(c);
        let rest = lua::escaped(s.skip(1)) + seq!['"'] + b;
        assert(all == e + rest);
        assert(all[0] == e[0]);
        lemma_quoted_reads_back(s.skip(1), b);
        assert(seq![c] + s.skip(1) == s);
        if e.len() > 1 {
            lemma_escape_reads_back(c, rest);
            assert(all.skip(e.len() as int) == rest);
        } else {
            assert(all.skip(1) == rest);
        }
    }
}

proof fn lemma_string_reads_back(s: Seq<char>, b: Seq<char>)
    ensures
        lua::value(lua::string_text(s) + b) == Ok::<(Lua, Seq<char>), LuaError>((Lua::Text(s), b)),
{
    let all = lua::string_text(s) + b;
    assert(all[0] == '"');
    lemma_skip_token(all);
    assert(all.skip(1) == lua::escaped(s) + seq!['"'] + b);
    lemma_quoted_reads_back(s, b);
}

/// A printed number is a number token, and as a key it is an integer.
pub proof fn lemma_decimal_is_number(n: int)
    requires
        i64::MIN <= n <= i64::MAX,
    ensures
        is_number_token(text::signed_decimal(n)),
        lua::number_key(text::signed_decimal(n)) == Key::Int(n),
{
    let s = text::signed_decimal(n);
    let digits = text::decimal(
        (if n < 0 {
            -n
        } else {
            n
        }) as nat,
    );
    text::lemma_decimal_reads_back(
        (if n < 0 {
            -n
        } else {
            n
        }) as nat,
    );
    text::lemma_digit_run(digits);
    assert(text::is_digit(digits[0]));
    if n < 0 {
        assert(s == seq!['-'] + digits);
        assert(s[0] == '-');
        assert(s.skip(1) == digits);
        assert forall|i: int| 0 <= i < s.len() implies lua::in_number(#[trigger] s[i]) by {
            if i > 0 {
                assert(s[i] == digits[i - 1]);
                assert(text::is_digit(digits[i - 1]));
            }
        }
    } else {
        assert(s == digits);
        assert forall|i: int| 0 <= i < s.len() implies lua::in_number(#[trigger] s[i]) by {
            assert(text::is_digit(digits[i]));
        }
    }
    assert(text::is_numeral(digits));
}

proof fn lemma_key_reads_back(k: Key, b: Seq<char>)
    requires
        writable_key(k),
        ends_token(b),
    ensures
        ({
            let r = lua::value(lua::key_text(k) + b);
            match k {
                Key::Text(s) => r == Ok::<(Lua, Seq<char>), LuaError>((Lua::Text(s), b)),
                _ => r == Ok::<(Lua, Seq<char>), LuaError>((Lua::Number(lua::key_text(k)), b))
                    && lua::number_key(lua::key_text(k)) == k,
            }
        }),
{
    match k {
        Key::Text(s) => lemma_string_reads_back(s, b),
        Key::Int(n) => {
            lemma_decimal_is_number(n);
            lemma_number_reads_back(text::signed_decimal(n), b);
        },
        Key::Numeral(s) => lemma_number_reads_back(s, b),
    }
}

/// What is written of a value reads back as that value, and reading stops
/// where the value ends. Anything or nothing may follow a table or a text; what
/// follows another value must not run into it.
pub proof fn lemma_value_reads_back(v: Lua, pad: Seq<char>, b: Seq<char>)
    requires
        writable(v),
        is_pad(pad),
        v is Table || v is Text || ends_token(b),
    ensures
        lua::value(lua::value_text(v, pad) + b) == Ok::<(Lua, Seq<char>), LuaError>((v, b)),
    decreases v, 0int,
{
    match v {
        Lua::Nil => lemma_word_reads_back("nil"@, v, b),
        Lua::Bool(x) => if x {
            lemma_word_reads_back("true"@, v, b);
        } else {
            lemma_word_reads_back("false"@, v, b);
        },
        Lua::Number(s) => lemma_number_reads_back(s, b),
        Lua::Text(s) => lemma_string_reads_back(s, b),
        Lua::Table(es) => {
            let all = lua::value_text(v, pad) + b;
            if es.len() == 0 {
                reveal_strlit("{}");
                assert(all[0] == '{');
                lemma_skip_token(all);
                assert(all.skip(1) == seq!['}'] + b);
                lemma_skip_token(seq!['}'] + b);
                assert((seq!['}'] + b).skip(1) == b);
                assert(es == Seq::<(Key, Lua)>::empty());
            } else {
                let inner = pad + "    "@;
                reveal_strlit("    ");
                assert(is_pad(inner));
                let tail = seq!['\n'] + pad + (seq!['}'] + b);
                assert(all =~= seq!['{'] + (lua::lines_text(es, inner) + tail));
                assert(all[0] == '{');
                lemma_skip_token(all);
                assert(all.skip(1) == lua::lines_text(es, inner) + tail);
                lemma_skip_line_break(pad, seq!['}'] + b);
                lemma_skip_token(seq!['}'] + b);
                lemma_entries_read_back(es, inner, tail, b, 1);
            }
        },
    }
}

proof fn lemma_entries_read_back(
    es: Seq<(Key, Lua)>,
    pad: Seq<char>,
    tail: Seq<char>,
    b: Seq<char>,
    next: int,
)
    requires
        writable_entries(es),
        is_pad(pad),
        lua::skipped(tail) == seq!['}'] + b,
    ensures
        lua::entries(lua::lines_text(es, pad) + tail, next) == Ok::<
            (Seq<(Key, Lua)>, Seq<char>),
            LuaError,
        >((es, b)),
    decreases es, 1int,
{
    let s = lua::lines_text(es, pad) + tail;
    if es.len() == 0 {
        assert(s == tail);
        assert((seq!['}'] + b).skip(1) == b);
        assert(es == Seq::<(Key, Lua)>::empty());
    } else {
        let k = es[0].0;
        let v = es[0].1;
        let more = lua::lines_text(es.skip(1), pad) + tail;
        let w = seq![','] + more;
        let vtext = lua::value_text(v, pad);
        let u = seq![' '] + (vtext + w);
        let t = bracketed(k) + u;
        lemma_line_shape(es, pad, tail);
        lemma_skip_line_break(pad, t);
        lemma_bracketed(k, u, next);
        lua::lemma_skipped_shrinks(s);
        assert(lua::skipped(s) == t);
        lemma_value_reads_back(v, pad, w);
        assert(u.skip(1) == vtext + w);
        assert(lua::skipped(u) == lua::skipped(vtext + w));
        assert(lua::value(u) == lua::value(vtext + w));
        lemma_skip_token(w);
        assert(w.skip(1) == more);
        lemma_entries_read_back(es.skip(1), pad, tail, b, next);
        assert(seq![(k, v)] + es.skip(1) == es);
        lemma_entries_step(s, next, k, u, v, w);
    }
}

/// A key in square brackets, up to and with the equals sign.
spec fn bracketed(k: Key) -> Seq<char> {
    seq!['['] + lua::key_text(k) + seq![']', ' ', '=']
}

proof fn lemma_line_shape(es: Seq<(Key, Lua)>, pad: Seq<char>, tail: Seq<char>)
    requires
        es.len() > 0,
    ensures
        lua::lines_text(es, pad) + tail == seq!['\n'] + pad + (bracketed(es[0].0) + (seq![' '] + (
        lua::value_text(es[0].1, pad) + (seq![','] + (lua::lines_text(es.skip(1), pad) + tail))))),
{
    reveal_strlit("] = ");
    assert("] = "@ == seq![']', ' ', '='] + seq![' ']);
    let k = lua::key_text(es[0].0);
    let v = lua::value_text(es[0].1, pad);
    let more = lua::lines_text(es.skip(1), pad);
    lemma_regroup(seq!['\n'] + pad, seq!['['] + k, seq![']', ' ', '='], seq![' '], v, more, tail);
}

proof fn lemma_regroup(
    a: Seq<char>,
    b: Seq<char>,
    c: Seq<char>,
    d: Seq<char>,
    e: Seq<char>,
    f: Seq<char>,
    g: Seq<char>,
)
    ensures
        forall|x: Seq<char>, y: Seq<char>|
            b == x + y ==> #[trigger] ((((a + x) + y) + (c + d) + e + seq![',']) + f) + g == a + ((
            b + c) + (d + (e + (seq![','] + (f + g))))),
{
    assert forall|x: Seq<char>, y: Seq<char>| b == x + y implies #[trigger] ((((a + x) + y) + (c + d)
        + e + seq![',']) + f) + g == a + ((b + c) + (d + (e + (seq![','] + (f + g))))) by {
        assert(((((a + x) + y) + (c + d) + e + seq![',']) + f) + g =~= a + ((b + c) + (d + (e + (
        seq![','] + (f + g))))));
    }
}

proof fn lemma_bracketed(k: Key, u: Seq<char>, next: int)
    requires
        writable_key(k),
    ensures
        lua::skipped(bracketed(k) + u) == bracketed(k) + u,
        (bracketed(k) + u).len() > 0,
        (bracketed(k) + u)[0] == '[',
        lua::entry_key(bracketed(k) + u, next) == Ok::<(Key, Seq<char>, int), LuaError>(
            (k, u, next),
        ),
{
    let t = bracketed(k) + u;
    let c = seq!['='] + u;
    let a = seq![']', ' '] + c;
    assert(t[0] == '[');
    lemma_skip_token(t);
    assert(t.skip(1) =~= lua::key_text(k) + a);
    lemma_key_reads_back(k, a);
    assert(a[0] == ']');
    lemma_skip_token(a);
    assert(a.skip(1) =~= seq![' '] + c);
    assert((seq![' '] + c).skip(1) =~= c);
    lemma_skip_token(c);
    assert(lua::skipped(a.skip(1)) == c);
    assert(c.skip(1) =~= u);
}

proof fn lemma_entries_step(
    s: Seq<char>,
    next: int,
    k: Key,
    u: Seq<char>,
    v: Lua,
    w: Seq<char>,
)
    requires
        lua::skipped(s).len() > 0,
        lua::skipped(s).len() <= s.len(),
        lua::skipped(s)[0] == '[',
        lua::entry_key(lua::skipped(s), next) == Ok::<(Key, Seq<char>, int), LuaError>(
            (k, u, next),
        ),
        u.len() <= lua::skipped(s).len(),
        lua::value(u) == Ok::<(Lua, Seq<char>), LuaError>((v, w)),
        lua::skipped(w) == w,
        0 < w.len() <= s.len(),
        w[0] == ',',
    ensures
        lua::entries(s, next) == (match lua::entries(w.skip(1), next) {
            Err(e) => Err(e),
            Ok((more, rest)) => Ok((seq![(k, v)] + more, rest)),
        }),
{
}

/// `return` and a written table read back as that table, whether the text ends
/// with the table or anything follows it.
pub proof fn lemma_table_reads_back(es: Seq<(Key, Lua)>, b: Seq<char>)
    requires
        writable_entries(es),
    ensures
        lua::returned("return "@ + lua::value_text(Lua::Table(es), Seq::empty()) + b) == Ok::<
            Seq<(Key, Lua)>,
            LuaError,
        >(es),
        lua::returned("return "@ + lua::value_text(Lua::Table(es), Seq::empty())) == Ok::<
            Seq<(Key, Lua)>,
            LuaError,
        >(es),
{
    lemma_return_reads_back(es, b);
    lemma_return_reads_back(es, Seq::empty());
    let s = "return "@ + lua::value_text(Lua::Table(es), Seq::empty());
    assert(s + Seq::<char>::empty() =~= s);
}

proof fn lemma_return_reads_back(es: Seq<(Key, Lua)>, b: Seq<char>)
    requires
        writable_entries(es),
    ensures
        ({
            let body = "return "@ + lua::value_text(Lua::Table(es), Seq::empty()) + b;
            &&& lua::skipped(body) == body
            &&& lua::returned(body) == Ok::<Seq<(Key, Lua)>, LuaError>(es)
        }),
{
    reveal_strlit("return ");
    reveal_strlit("return");
    let table = lua::value_text(Lua::Table(es), Seq::empty());
    let after = seq![' '] + (table + b);
    let body = "return "@ + table + b;
    assert(body =~= "return"@ + after);
    assert(body[0] == 'r');
    lemma_skip_token(body);
    assert("return"@.is_prefix_of(body)) by {
        assert(body.subrange(0, 6) == "return"@);
    }
    assert(body.skip(6) == after);
    lemma_value_reads_back(Lua::Table(es), Seq::empty(), b);
    assert(after.skip(1) == table + b);
    assert(lua::skipped(after) == lua::skipped(table + b));
    assert(lua::value(after) == lua::value(table + b));
}

/// A comment line, `return` and a written table read back as that table,
/// whatever follows.
pub proof fn lemma_file_reads_back(comment: Seq<char>, es: Seq<(Key, Lua)>, b: Seq<char>)
    requires
        writable_entries(es),
        forall|i: int| 0 <= i < comment.len() ==> #[trigger] comment[i] != '\n',
    ensures
        lua::returned(
            "-- "@ + comment + "\nreturn "@ + lua::value_text(Lua::Table(es), Seq::empty()) + b,
        ) == Ok::<Seq<(Key, Lua)>, LuaError>(es),
{
    reveal_strlit("-- ");
    reveal_strlit("\nreturn ");
    reveal_strlit("return ");
    let table = lua::value_text(Lua::Table(es), Seq::empty());
    let s = "-- "@ + comment + "\nreturn "@ + table + b;
    let body = "return "@ + table + b;
    let line = seq![' '] + comment + seq!['\n'] + body;
    assert(s =~= seq!['-', '-'] + line);
    assert(s.skip(2) == line);
    lemma_after_line(seq![' '] + comment, body);
    assert((seq![' '] + comment) + (seq!['\n'] + body) == line);
    assert(s[2] == ' ');
    lemma_return_reads_back(es, b);
    assert(lua::skipped(s) == body);
}

proof fn lemma_after_line(line: Seq<char>, rest: Seq<char>)
    requires
        forall|i: int| 0 <= i < line.len() ==> #[trigger] line[i] != '\n',
    ensures
        lua::after_line(line + (seq!['\n'] + rest)) == rest,
    decreases line.len(),
{
    let all = line + (seq!['\n'] + rest);
    if line.len() == 0 {
        assert(all[0] == '\n');
        assert(all.skip(1) == rest);
    } else {
        assert(all[0] == line[0]);
        assert(all.skip(1) == line.skip(1) + (seq!['\n'] + rest));
        lemma_after_line(line.skip(1), rest);
    }
}

proof fn lemma_number_run(s: Seq<char>)
    ensures
        lua::number_len(s) <= s.len(),
        forall|i: int| 0 <= i < lua::number_len(s) ==> lua::in_number(#[trigger] s[i]),
    decreases s.len(),
{
    if s.len() > 0 && lua::in_number(s[0]) {
        lemma_number_run(s.skip(1));
        assert forall|i: int| 0 <= i < lua::number_len(s) implies lua::in_number(
            #[trigger] s[i],
        ) by {
            if i > 0 {
                assert(s.skip(1)[i - 1] == s[i]);
            }
        }
    }
}

proof fn lemma_number_writable(s: Seq<char>)
    requires
        s.len() > 0,
        s[0] == '-' || text::is_digit(s[0]),
        lua::number(s) is Ok,
    ensures
        lua::number(s) matches Ok((Lua::Number(x), _)) && is_number_token(x),
{
    lemma_number_run(s);
    let token = s.take(lua::number_len(s) as int);
    assert(token[0] == s[0]);
    assert forall|i: int| 0 <= i < token.len() implies lua::in_number(#[trigger] token[i]) by {
        assert(token[i] == s[i]);
    }
}

/// Whatever is read can be written.
pub proof fn lemma_read_is_writable(s: Seq<char>)
    requires
        s.len() < i64::MAX,
    ensures
        lua::value(s) matches Ok((v, _)) ==> writable(v),
    decreases s.len(), 0int,
{
    let t = lua::skipped(s);
    lua::lemma_skipped_shrinks(s);
    if t.len() > 0 {
        if t[0] == '{' {
            lemma_read_entries_writable(t.skip(1), 1);
        } else if t[0] == '-' || text::is_digit(t[0]) {
            if lua::number(t) is Ok {
                lemma_number_writable(t);
            }
        }
    }
}

proof fn lemma_read_key_writable(s: Seq<char>, next: int)
    requires
        s.len() < i64::MAX,
        1 <= next <= i64::MAX,
    ensures
        lua::entry_key(s, next) matches Ok((k, _, next2)) ==> writable_key(k) && next <= next2
            <= next + 1,
    decreases s.len(), 1int,
{
    if s.len() > 0 && s[0] == '[' {
        lemma_read_is_writable(s.skip(1));
        if let Ok((Lua::Number(x), _)) = lua::value(s.skip(1)) {
            assert(writable(Lua::Number(x)));
        }
    }
}

proof fn lemma_read_entries_writable(s: Seq<char>, next: int)
    requires
        s.len() < i64::MAX,
        1 <= next,
        next + s.len() <= i64::MAX,
    ensures
        lua::entries(s, next) matches Ok((es, _)) ==> writable_entries(es),
    decreases s.len(), 2int,
{
    let t = lua::skipped(s);
    lua::lemma_skipped_shrinks(s);
    if lua::entries(s, next) is Ok && t.len() > 0 && t[0] != '}' {
        lemma_read_key_writable(t, next);
        if let Ok((k, u, next2)) = lua::entry_key(t, next) {
            lemma_read_is_writable(u);
            if let Ok((v, w)) = lua::value(u) {
                let x = lua::skipped(w);
                if x.len() > 0 && (x[0] == ',' || x[0] == ';') {
                    lemma_read_entries_writable(x.skip(1), next2);
                    if let Ok((more, rest)) = lua::entries(x.skip(1), next2) {
                        let es = seq![(k, v)] + more;
                        assert(es[0] == (k, v));
                        assert(es.skip(1) == more);
                    }
                } else {
                    let es = seq![(k, v)];
                    assert(es[0] == (k, v));
                    assert(es.skip(1) == Seq::<(Key, Lua)>::empty());
                    assert(writable_entries(es.skip(1)));
                }
            }
        }
    }
}

/// Nothing that a file holds is lost: what was read from any file, written
/// out again under any one-line comment, reads back the same.
pub proof fn lemma_file_survives(s: Seq<char>, comment: Seq<char>)
    requires
        s.len() < i64::MAX,
        forall|i: int| 0 <= i < comment.len() ==> #[trigger] comment[i] != '\n',
    ensures
        lua::returned(s) matches Ok(es) ==> writable_entries(es) && lua::returned(
            "-- "@ + comment + "\nreturn "@ + lua::value_text(Lua::Table(es), Seq::empty())
                + seq!['\n'],
        ) == Ok::<Seq<(Key, Lua)>, LuaError>(es),
{
    if let Ok(es) = lua::returned(s) {
        let t = lua::skipped(s);
        lua::lemma_skipped_shrinks(s);
        let body = t.skip("return"@.len() as int);
        lemma_read_is_writable(body);
        assert(writable(Lua::Table(es)));
        lemma_file_reads_back(comment, es, seq!['\n']);
    }
}

} // verus!
