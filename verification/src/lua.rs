//! Reader and writer for the narrow subset of Lua that sidecar files use: a
//! single `return { ... }` whose leaves are strings, numbers, booleans and
//! nested tables.
//!
//! Numbers are kept as they are written, so what is not understood goes back
//! to the file verbatim.
use vstd::prelude::*;

use crate::text::{self, from_chars, push_signed, push_str, to_chars};

verus! {

/// A table key. Plain integers are `Int`; any other number keeps its text.
#[derive(Debug, PartialEq, Eq)]
pub enum LuaKey {
    Text(String),
    Int(i64),
    Numeral(String),
}

#[derive(Debug, PartialEq, Eq)]
pub enum LuaValue {
    Nil,
    Bool(bool),
    /// A number in text form.
    Number(String),
    Text(String),
    Table(LuaTable),
}

#[derive(Debug, PartialEq, Eq)]
pub struct LuaTable {
    pub entries: Vec<(LuaKey, LuaValue)>,
}

/// Why a text is not a table.
#[derive(Debug, Clone, Copy, PartialEq, Eq, Structural)]
pub enum LuaError {
    /// The text does not start with `return`.
    NoReturn,
    /// Something other than the expected sign.
    Expected(char),
    EndOfFile,
    /// A word that is not a value.
    Identifier,
    /// A character that starts no value.
    Unexpected(char),
    BadEscape,
    UnterminatedString,
    BadNumber,
    UnterminatedTable,
    /// A table key that is neither a string nor a number.
    BadKey,
    /// Neither `,` nor `}` after an entry.
    MissingSeparator,
    /// The value is not a table.
    NotATable,
}

/// What a `LuaKey` stands for.
pub enum Key {
    Text(Seq<char>),
    Int(int),
    Numeral(Seq<char>),
}

/// What a `LuaValue` stands for.
pub enum Lua {
    Nil,
    Bool(bool),
    Number(Seq<char>),
    Text(Seq<char>),
    Table(Seq<(Key, Lua)>),
}

impl View for LuaKey {
    type V = Key;

    open spec fn view(&self) -> Key {
        match self {
            LuaKey::Text(s) => Key::Text(s@),
            LuaKey::Int(n) => Key::Int(*n as int),
            LuaKey::Numeral(s) => Key::Numeral(s@),
        }
    }
}

/// What a `LuaValue` stands for.
pub open spec fn view_value(v: LuaValue) -> Lua
    decreases v, 0int,
{
    match v {
        LuaValue::Nil => Lua::Nil,
        LuaValue::Bool(b) => Lua::Bool(b),
        LuaValue::Number(s) => Lua::Number(s@),
        LuaValue::Text(s) => Lua::Text(s@),
        LuaValue::Table(t) => Lua::Table(view_entries(t.entries@)),
    }
}

/// What a list of entries stands for.
pub open spec fn view_entries(es: Seq<(LuaKey, LuaValue)>) -> Seq<(Key, Lua)>
    decreases es, 1int,
{
    if es.len() == 0 {
        Seq::empty()
    } else {
        seq![(es[0].0@, view_value(es[0].1))] + view_entries(es.skip(1))
    }
}

impl View for LuaValue {
    type V = Lua;

    open spec fn view(&self) -> Lua {
        view_value(*self)
    }
}

impl View for LuaTable {
    type V = Seq<(Key, Lua)>;

    open spec fn view(&self) -> Seq<(Key, Lua)> {
        view_entries(self.entries@)
    }
}

/// Entries keep their number and order.
pub proof fn lemma_view_entries(es: Seq<(LuaKey, LuaValue)>)
    ensures
        view_entries(es).len() == es.len(),
        forall|i: int|
            0 <= i < es.len() ==> #[trigger] view_entries(es)[i] == (es[i].0@, es[i].1@),
    decreases es.len(),
{
    if es.len() > 0 {
        lemma_view_entries(es.skip(1));
        assert forall|i: int| 0 <= i < es.len() implies #[trigger] view_entries(es)[i] == (
            es[i].0@,
            es[i].1@,
        ) by {
            if i > 0 {
                assert(view_entries(es)[i] == view_entries(es.skip(1))[i - 1]);
                assert(es.skip(1)[i - 1] == es[i]);
            }
        }
    }
}

/// Pushing an entry pushes what it stands for.
pub proof fn lemma_view_push(es: Seq<(LuaKey, LuaValue)>, e: (LuaKey, LuaValue))
    ensures
        view_entries(es.push(e)) == view_entries(es).push((e.0@, e.1@)),
{
    lemma_view_entries(es);
    lemma_view_entries(es.push(e));
    assert(view_entries(es.push(e)) =~= view_entries(es).push((e.0@, e.1@)));
}

/// The key is that text.
pub open spec fn is_named(k: Key, name: Seq<char>) -> bool {
    k matches Key::Text(s) && s == name
}

/// Position of the first entry of that name.
pub open spec fn named_at(es: Seq<(Key, Lua)>, name: Seq<char>) -> Option<int>
    decreases es.len(),
{
    if es.len() == 0 {
        None
    } else if is_named(es[0].0, name) {
        Some(0)
    } else {
        match named_at(es.skip(1), name) {
            Some(i) => Some(i + 1),
            None => None,
        }
    }
}

/// The value of the first entry of that name.
pub open spec fn lookup(es: Seq<(Key, Lua)>, name: Seq<char>) -> Option<Lua> {
    match named_at(es, name) {
        Some(i) => Some(es[i].1),
        None => None,
    }
}

/// The entries with `name` set to `v`: in place where it exists, else last.
pub open spec fn assigned(es: Seq<(Key, Lua)>, name: Seq<char>, v: Lua) -> Seq<(Key, Lua)> {
    match named_at(es, name) {
        Some(i) => es.update(i, (es[i].0, v)),
        None => es.push((Key::Text(name), v)),
    }
}

/// The entries without those of that name.
pub open spec fn removed(es: Seq<(Key, Lua)>, name: Seq<char>) -> Seq<(Key, Lua)>
    decreases es.len(),
{
    if es.len() == 0 {
        es
    } else if is_named(es[0].0, name) {
        removed(es.skip(1), name)
    } else {
        seq![es[0]] + removed(es.skip(1), name)
    }
}

/// `named_at` finds the first entry of that name, or that there is none.
pub proof fn lemma_named_at(es: Seq<(Key, Lua)>, name: Seq<char>)
    ensures
        named_at(es, name) matches Some(i) ==> {
            &&& 0 <= i < es.len()
            &&& is_named(es[i].0, name)
            &&& forall|j: int| 0 <= j < i ==> !is_named((#[trigger] es[j]).0, name)
        },
        named_at(es, name) is None ==> forall|j: int|
            0 <= j < es.len() ==> !is_named((#[trigger] es[j]).0, name),
    decreases es.len(),
{
    if es.len() > 0 && !is_named(es[0].0, name) {
        let rest = es.skip(1);
        lemma_named_at(rest, name);
        assert forall|j: int| 1 <= j < es.len() implies es[j] == rest[j - 1] by {}
    }
}

/// Removing a name leaves a list without it alone.
pub proof fn lemma_removed_absent(es: Seq<(Key, Lua)>, name: Seq<char>)
    requires
        named_at(es, name) is None,
    ensures
        removed(es, name) == es,
    decreases es.len(),
{
    if es.len() > 0 {
        lemma_removed_absent(es.skip(1), name);
        assert(seq![es[0]] + es.skip(1) == es);
    }
}

fn key_is(k: &LuaKey, name: &str) -> (r: bool)
    ensures
        r == is_named(k@, name@),
{
    match k {
        LuaKey::Text(s) => text::same(s.as_str(), name),
        _ => false,
    }
}

impl LuaTable {
    /// The value of the first entry of that name.
    pub fn get(&self, key: &str) -> (r: Option<&LuaValue>)
        ensures
            match lookup(self@, key@) {
                Some(v) => r matches Some(x) && x@ == v,
                None => r is None,
            },
    {
        proof {
            lemma_view_entries(self.entries@);
            lemma_named_at(self@, key@);
        }
        let mut i: usize = 0;
        while i < self.entries.len()
            invariant
                i <= self.entries@.len(),
                self@.len() == self.entries@.len(),
                forall|k: int|
                    0 <= k < self@.len() ==> #[trigger] self@[k] == (
                        self.entries@[k].0@,
                        self.entries@[k].1@,
                    ),
                forall|k: int| 0 <= k < i ==> !is_named((#[trigger] self@[k]).0, key@),
            decreases self.entries@.len() - i,
        {
            assert(self@[i as int] == (self.entries@[i as int].0@, self.entries@[i as int].1@));
            if key_is(&self.entries[i].0, key) {
                proof {
                    lemma_named_at(self@, key@);
                }
                return Some(&self.entries[i].1);
            }
            i += 1;
        }
        proof {
            lemma_named_at(self@, key@);
        }
        None
    }

    /// Set the first entry of that name, or append one.
    pub fn set(&mut self, key: &str, value: LuaValue)
        ensures
            final(self)@ == assigned(old(self)@, key@, value@),
    {
        let ghost before = self@;
        let ghost start = self.entries@;
        proof {
            lemma_view_entries(self.entries@);
            lemma_named_at(self@, key@);
        }
        let n: usize = self.entries.len();
        let mut i: usize = 0;
        while i < n && !key_is(&self.entries[i].0, key)
            invariant
                i <= n == self.entries@.len(),
                self.entries@ == start,
                before.len() == n,
                forall|k: int|
                    0 <= k < n ==> #[trigger] before[k] == (start[k].0@, start[k].1@),
                forall|k: int| 0 <= k < i ==> !is_named((#[trigger] before[k]).0, key@),
            decreases n - i,
        {
            assert(before[i as int] == (start[i as int].0@, start[i as int].1@));
            i += 1;
        }
        if i < n {
            assert(before[i as int] == (start[i as int].0@, start[i as int].1@));
            self.entries[i].1 = value;
            proof {
                lemma_named_at(before, key@);
                lemma_view_entries(self.entries@);
                assert(self@ =~= assigned(before, key@, value@));
            }
        } else {
            let k = LuaKey::Text(text::owned(key));
            proof {
                lemma_named_at(before, key@);
                lemma_view_push(start, (k, value));
            }
            self.entries.push((k, value));
        }
    }

    /// Drop every entry of that name.
    pub fn remove(&mut self, key: &str)
        ensures
            final(self)@ == removed(old(self)@, key@),
    {
        let ghost before = self@;
        let mut i: usize = 0;
        proof {
            lemma_view_entries(self.entries@);
            assert(before.skip(0) == before);
            assert(before.take(0) == Seq::<(Key, Lua)>::empty());
            assert(before.take(0) + removed(before, key@) == removed(before, key@));
            assert(before.take(0) + before == before);
        }
        while i < self.entries.len()
            invariant
                i <= self.entries@.len(),
                self@.len() == self.entries@.len(),
                self@.take(i as int) + removed(self@.skip(i as int), key@) == removed(
                    before,
                    key@,
                ),
            decreases self.entries@.len() - i,
        {
            let ghost now = self@;
            let ghost list = self.entries@;
            proof {
                lemma_view_entries(list);
            }
            let ghost rest = now.skip(i as int);
            assert(now[i as int] == (list[i as int].0@, list[i as int].1@));
            assert(rest[0] == now[i as int]);
            assert(rest.skip(1) == now.skip(i + 1));
            if key_is(&self.entries[i].0, key) {
                self.entries.remove(i);
                proof {
                    lemma_view_entries(self.entries@);
                    assert(self@ =~= now.remove(i as int));
                    assert(self@.take(i as int) =~= now.take(i as int));
                    assert(self@.skip(i as int) =~= now.skip(i + 1));
                }
            } else {
                assert(now.take(i + 1) =~= now.take(i as int) + seq![now[i as int]]);
                assert(now.take(i as int) + (seq![rest[0]] + removed(rest.skip(1), key@))
                    =~= now.take(i + 1) + removed(now.skip(i + 1), key@));
                i += 1;
            }
        }
        assert(self@.skip(i as int).len() == 0);
        assert(self@.take(i as int) + removed(self@.skip(i as int), key@) =~= self@);
    }

    /// A copy of the table.
    pub fn duplicate(&self) -> (r: LuaTable)
        ensures
            r@ == self@,
        decreases self, 1int,
    {
        let mut r: LuaTable = LuaTable { entries: Vec::new() };
        let mut i: usize = 0;
        proof {
            lemma_view_entries(self.entries@);
            assert(view_entries(Seq::<(LuaKey, LuaValue)>::empty()) == self@.take(0));
        }
        while i < self.entries.len()
            invariant
                i <= self.entries@.len(),
                self@.len() == self.entries@.len(),
                forall|k: int|
                    0 <= k < self@.len() ==> #[trigger] self@[k] == (
                        self.entries@[k].0@,
                        self.entries@[k].1@,
                    ),
                r@ == self@.take(i as int),
            decreases self.entries@.len() - i,
        {
            let e: &(LuaKey, LuaValue) = &self.entries[i];
            let k: LuaKey = match &e.0 {
                LuaKey::Text(s) => LuaKey::Text(s.clone()),
                LuaKey::Int(n) => LuaKey::Int(*n),
                LuaKey::Numeral(s) => LuaKey::Numeral(s.clone()),
            };
            assert(decreases_to!(self => self.entries@[i as int].1));
            let v: LuaValue = e.1.duplicate();
            proof {
                lemma_view_push(r.entries@, (k, v));
                assert(self@[i as int] == (e.0@, e.1@));
                assert(self@.take(i + 1) =~= self@.take(i as int).push(self@[i as int]));
            }
            r.entries.push((k, v));
            i += 1;
        }
        assert(self@.take(i as int) == self@);
        r
    }
}

impl LuaValue {
    /// A copy of the value.
    pub fn duplicate(&self) -> (r: LuaValue)
        ensures
            r@ == self@,
        decreases self, 0int,
    {
        match self {
            LuaValue::Nil => LuaValue::Nil,
            LuaValue::Bool(b) => LuaValue::Bool(*b),
            LuaValue::Number(s) => LuaValue::Number(s.clone()),
            LuaValue::Text(s) => LuaValue::Text(s.clone()),
            LuaValue::Table(t) => LuaValue::Table(t.duplicate()),
        }
    }
}

// ------------------------------ Reading ------------------------------

/// White space between tokens.
pub open spec fn is_space(c: char) -> bool {
    c == ' ' || c == '\t' || c == '\n' || c == '\u{c}' || c == '\r'
}

/// `s` starts with `--`.
pub open spec fn is_comment(s: Seq<char>) -> bool {
    s.len() >= 2 && s[0] == '-' && s[1] == '-'
}

/// `s` starts with `--[[`.
pub open spec fn is_block_comment(s: Seq<char>) -> bool {
    is_comment(s) && s.len() >= 4 && s[2] == '[' && s[3] == '['
}

/// What follows the next line break.
pub open spec fn after_line(s: Seq<char>) -> Seq<char>
    decreases s.len(),
{
    if s.len() == 0 {
        s
    } else if s[0] == '\n' {
        s.skip(1)
    } else {
        after_line(s.skip(1))
    }
}

/// What follows the next `]]`.
pub open spec fn after_block(s: Seq<char>) -> Seq<char>
    decreases s.len(),
{
    if s.len() == 0 {
        s
    } else if s.len() >= 2 && s[0] == ']' && s[1] == ']' {
        s.skip(2)
    } else {
        after_block(s.skip(1))
    }
}

pub proof fn lemma_after_shrinks(s: Seq<char>)
    ensures
        after_line(s).len() <= s.len(),
        after_block(s).len() <= s.len(),
    decreases s.len(),
{
    if s.len() > 0 {
        lemma_after_shrinks(s.skip(1));
    }
}

/// `s` without the white space and comments that it starts with.
pub open spec fn skipped(s: Seq<char>) -> Seq<char>
    decreases s.len(),
{
    if s.len() > 0 && is_space(s[0]) {
        skipped(s.skip(1))
    } else if is_block_comment(s) {
        proof {
            lemma_after_shrinks(s.skip(4));
        }
        skipped(after_block(s.skip(4)))
    } else if is_comment(s) {
        proof {
            lemma_after_shrinks(s.skip(2));
        }
        skipped(after_line(s.skip(2)))
    } else {
        s
    }
}

/// Value of a hexadecimal digit.
pub open spec fn hex_digit(c: char) -> Option<int> {
    if '0' <= c <= '9' {
        Some(c as int - '0' as int)
    } else if 'a' <= c <= 'f' {
        Some(c as int - 'a' as int + 10)
    } else if 'A' <= c <= 'F' {
        Some(c as int - 'A' as int + 10)
    } else {
        None
    }
}

/// Value of two hexadecimal digits, of which the first may be a plus sign;
/// zero where they are none.
pub open spec fn hex_pair(a: char, b: char) -> int {
    match (hex_digit(a), hex_digit(b)) {
        (Some(x), Some(y)) => 16 * x + y,
        (None, Some(y)) => if a == '+' {
            y
        } else {
            0
        },
        _ => 0,
    }
}

/// The character that an escape stands for, and how many characters it takes
/// after the backslash. `None` where the text ends within it.
pub open spec fn escape(s: Seq<char>) -> Option<(char, int)> {
    if s.len() == 0 {
        None
    } else if s[0] == 'n' {
        Some(('\n', 1))
    } else if s[0] == 'r' {
        Some(('\r', 1))
    } else if s[0] == 't' {
        Some(('\t', 1))
    } else if s[0] == '0' {
        Some(('\0', 1))
    } else if s[0] == 'x' {
        if s.len() < 3 {
            None
        } else {
            Some((hex_pair(s[1], s[2]) as char, 3))
        }
    } else if text::is_digit(s[0]) {
        let run = text::digit_run(s);
        let n: int = if run > 3 {
            3
        } else {
            run as int
        };
        Some((text::digits_value(s.take(n)) as char, n))
    } else {
        Some((s[0], 1))
    }
}

/// An escape takes some of the text, and no more than there is.
pub proof fn lemma_escape_len(s: Seq<char>)
    ensures
        escape(s) matches Some((_, n)) ==> 1 <= n <= s.len(),
{
    text::lemma_digit_run(s);
}

/// What a reader makes of the start of a text: a result and the rest.
pub type Read<T> = Result<(T, Seq<char>), LuaError>;

/// The string that ends at the next unescaped `quote`, and what follows it.
pub open spec fn quoted(s: Seq<char>, quote: char) -> Read<Seq<char>>
    decreases s.len(),
{
    if s.len() == 0 {
        Err(LuaError::UnterminatedString)
    } else if s[0] == quote {
        Ok((Seq::empty(), s.skip(1)))
    } else if s[0] == '\\' {
        match escape(s.skip(1)) {
            None => Err(LuaError::BadEscape),
            Some((c, n)) => {
                proof {
                    lemma_escape_len(s.skip(1));
                }
                match quoted(s.skip(1 + n), quote) {
                    Err(e) => Err(e),
                    Ok((t, rest)) => Ok((seq![c] + t, rest)),
                }
            },
        }
    } else {
        match quoted(s.skip(1), quote) {
            Err(e) => Err(e),
            Ok((t, rest)) => Ok((seq![s[0]] + t, rest)),
        }
    }
}

/// A character that a number may consist of.
pub open spec fn in_number(c: char) -> bool {
    text::is_digit(c) || c == '.' || c == 'e' || c == 'E' || c == '+' || c == '-'
}

/// Length of the leading run of number characters.
pub open spec fn number_len(s: Seq<char>) -> nat
    decreases s.len(),
{
    if s.len() > 0 && in_number(s[0]) {
        1 + number_len(s.skip(1))
    } else {
        0
    }
}

/// A character that a word may start with.
pub open spec fn starts_word(c: char) -> bool {
    text::is_letter(c) || c == '_'
}

/// A character that a word may consist of.
pub open spec fn in_word(c: char) -> bool {
    text::is_letter(c) || text::is_digit(c) || c == '_'
}

/// Length of the leading run of word characters.
pub open spec fn ident_len(s: Seq<char>) -> nat
    decreases s.len(),
{
    if s.len() > 0 && in_word(s[0]) {
        1 + ident_len(s.skip(1))
    } else {
        0
    }
}

/// A number at the start of `s`.
pub open spec fn number(s: Seq<char>) -> Read<Lua> {
    let token = s.take(number_len(s) as int);
    if text::is_float(token) {
        Ok((Lua::Number(token), s.skip(number_len(s) as int)))
    } else {
        Err(LuaError::BadNumber)
    }
}

/// A word at the start of `s`: one of three values.
pub open spec fn word(s: Seq<char>) -> Read<Lua> {
    let token = s.take(ident_len(s) as int);
    let rest = s.skip(ident_len(s) as int);
    if token == "true"@ {
        Ok((Lua::Bool(true), rest))
    } else if token == "false"@ {
        Ok((Lua::Bool(false), rest))
    } else if token == "nil"@ {
        Ok((Lua::Nil, rest))
    } else {
        Err(LuaError::Identifier)
    }
}

/// The key that a number in square brackets is: an integer where it is
/// written as one, else the number as it stands.
pub open spec fn number_key(s: Seq<char>) -> Key {
    match text::signed_of(s, i64::MIN as int, i64::MAX as int) {
        Some(n) => if text::signed_decimal(n) == s {
            Key::Int(n)
        } else {
            Key::Numeral(s)
        },
        None => Key::Numeral(s),
    }
}

/// The value at the start of `s`, white space and comments aside.
pub open spec fn value(s: Seq<char>) -> Read<Lua>
    decreases s.len(), 0int,
{
    let t = skipped(s);
    if t.len() == 0 {
        Err(LuaError::EndOfFile)
    } else if t[0] == '{' {
        proof {
            lemma_skipped_shrinks(s);
        }
        match entries(t.skip(1), 1) {
            Err(e) => Err(e),
            Ok((es, rest)) => Ok((Lua::Table(es), rest)),
        }
    } else if t[0] == '"' || t[0] == '\'' {
        match quoted(t.skip(1), t[0]) {
            Err(e) => Err(e),
            Ok((x, rest)) => Ok((Lua::Text(x), rest)),
        }
    } else if t[0] == '-' || text::is_digit(t[0]) {
        number(t)
    } else if starts_word(t[0]) {
        word(t)
    } else {
        Err(LuaError::Unexpected(t[0]))
    }
}

/// The key of the entry at the start of `s`, what follows it and its equals
/// sign, and the number that the next entry without a key gets. `next` is the
/// number that this entry gets if it has none.
pub open spec fn entry_key(s: Seq<char>, next: int) -> Result<(Key, Seq<char>, int), LuaError>
    decreases s.len(), 1int,
{
    if s.len() > 0 && s[0] == '[' {
        match value(s.skip(1)) {
            Err(e) => Err(e),
            Ok((k, a)) => {
                let b = skipped(a);
                if b.len() == 0 || b[0] != ']' {
                    Err(LuaError::Expected(']'))
                } else {
                    let c = skipped(b.skip(1));
                    if c.len() == 0 || c[0] != '=' {
                        Err(LuaError::Expected('='))
                    } else {
                        match k {
                            Lua::Text(x) => Ok((Key::Text(x), c.skip(1), next)),
                            Lua::Number(x) => Ok((number_key(x), c.skip(1), next)),
                            _ => Err(LuaError::BadKey),
                        }
                    }
                }
            },
        }
    } else if s.len() > 0 && starts_word(s[0]) && {
        let b = skipped(s.skip(ident_len(s) as int));
        b.len() > 0 && b[0] == '='
    } {
        let b = skipped(s.skip(ident_len(s) as int));
        Ok((Key::Text(s.take(ident_len(s) as int)), b.skip(1), next))
    } else {
        Ok((Key::Int(next), s, next + 1))
    }
}

/// The entries up to the closing brace, and what follows it.
pub open spec fn entries(s: Seq<char>, next: int) -> Read<Seq<(Key, Lua)>>
    decreases s.len(), 2int,
{
    let t = skipped(s);
    if t.len() == 0 {
        Err(LuaError::UnterminatedTable)
    } else if t[0] == '}' {
        Ok((Seq::empty(), t.skip(1)))
    } else if t.len() > s.len() {
        Err(LuaError::UnterminatedTable)
    } else {
        match entry_key(t, next) {
            Err(e) => Err(e),
            Ok((k, u, next2)) => if u.len() > t.len() {
                Err(LuaError::UnterminatedTable)
            } else {
                match value(u) {
                    Err(e) => Err(e),
                    Ok((v, w)) => {
                        let x = skipped(w);
                        if x.len() == 0 {
                            Err(LuaError::MissingSeparator)
                        } else if x[0] == ',' || x[0] == ';' {
                            if x.len() > s.len() {
                                Err(LuaError::UnterminatedTable)
                            } else {
                                match entries(x.skip(1), next2) {
                                    Err(e) => Err(e),
                                    Ok((more, rest)) => Ok((seq![(k, v)] + more, rest)),
                                }
                            }
                        } else if x[0] == '}' {
                            Ok((seq![(k, v)], x.skip(1)))
                        } else {
                            Err(LuaError::MissingSeparator)
                        }
                    },
                }
            },
        }
    }
}

pub proof fn lemma_skipped_shrinks(s: Seq<char>)
    ensures
        skipped(s).len() <= s.len(),
    decreases s.len(),
{
    if s.len() > 0 && is_space(s[0]) {
        lemma_skipped_shrinks(s.skip(1));
    } else if is_block_comment(s) {
        lemma_after_shrinks(s.skip(4));
        lemma_skipped_shrinks(after_block(s.skip(4)));
    } else if is_comment(s) {
        lemma_after_shrinks(s.skip(2));
        lemma_skipped_shrinks(after_line(s.skip(2)));
    }
}

/// The table that a whole text returns; what follows it is not looked at.
pub open spec fn returned(s: Seq<char>) -> Result<Seq<(Key, Lua)>, LuaError> {
    let t = skipped(s);
    if "return"@.is_prefix_of(t) {
        match value(t.skip("return"@.len() as int)) {
            Err(e) => Err(e),
            Ok((Lua::Table(es), _)) => Ok(es),
            Ok(_) => Err(LuaError::NotATable),
        }
    } else {
        Err(LuaError::NoReturn)
    }
}

fn space(c: char) -> (r: bool)
    ensures
        r == is_space(c),
{
    c == ' ' || c == '\t' || c == '\n' || c == '\u{c}' || c == '\r'
}

/// Position after white space and comments.
fn skip_blank(cs: &Vec<char>, pos: usize) -> (p: usize)
    requires
        pos <= cs@.len(),
    ensures
        pos <= p <= cs@.len(),
        cs@.skip(p as int) == skipped(cs@.skip(pos as int)),
{
    let n: usize = cs.len();
    let mut p: usize = pos;
    loop
        invariant
            pos <= p <= n == cs@.len(),
            skipped(cs@.skip(p as int)) == skipped(cs@.skip(pos as int)),
        decreases n - p,
    {
        let ghost s = cs@.skip(p as int);
        if p < n && space(cs[p]) {
            assert(s[0] == cs@[p as int]);
            assert(s.skip(1) == cs@.skip(p + 1));
            p += 1;
        } else if n - p >= 2 && cs[p] == '-' && cs[p + 1] == '-' {
            assert(s[0] == '-' && s[1] == '-');
            if n - p >= 4 && cs[p + 2] == '[' && cs[p + 3] == '[' {
                assert(s[2] == '[' && s[3] == '[');
                assert(s.skip(4) == cs@.skip(p + 4));
                p = end_of_block(cs, p + 4);
            } else {
                assert(n - p >= 4 ==> s[2] == cs@[p + 2] && s[3] == cs@[p + 3]);
                assert(s.skip(2) == cs@.skip(p + 2));
                p = end_of_line(cs, p + 2);
            }
        } else {
            assert(p < n ==> s[0] == cs@[p as int]);
            assert(n - p >= 2 ==> s[1] == cs@[p + 1]);
            return p;
        }
    }
}

fn end_of_line(cs: &Vec<char>, pos: usize) -> (p: usize)
    requires
        pos <= cs@.len(),
    ensures
        pos <= p <= cs@.len(),
        cs@.skip(p as int) == after_line(cs@.skip(pos as int)),
{
    let mut p: usize = pos;
    while p < cs.len() && cs[p] != '\n'
        invariant
            pos <= p <= cs@.len(),
            after_line(cs@.skip(p as int)) == after_line(cs@.skip(pos as int)),
        decreases cs@.len() - p,
    {
        let ghost s = cs@.skip(p as int);
        assert(s[0] == cs@[p as int]);
        assert(s.skip(1) == cs@.skip(p + 1));
        p += 1;
    }
    let ghost s = cs@.skip(p as int);
    if p < cs.len() {
        assert(s[0] == cs@[p as int]);
        assert(s.skip(1) == cs@.skip(p + 1));
        p + 1
    } else {
        p
    }
}

fn end_of_block(cs: &Vec<char>, pos: usize) -> (p: usize)
    requires
        pos <= cs@.len(),
    ensures
        pos <= p <= cs@.len(),
        cs@.skip(p as int) == after_block(cs@.skip(pos as int)),
{
    let n: usize = cs.len();
    let mut p: usize = pos;
    while p < n && !(n - p >= 2 && cs[p] == ']' && cs[p + 1] == ']')
        invariant
            pos <= p <= n == cs@.len(),
            after_block(cs@.skip(p as int)) == after_block(cs@.skip(pos as int)),
        decreases n - p,
    {
        let ghost s = cs@.skip(p as int);
        assert(s[0] == cs@[p as int]);
        assert(n - p >= 2 ==> s[1] == cs@[p + 1]);
        assert(s.skip(1) == cs@.skip(p + 1));
        p += 1;
    }
    let ghost s = cs@.skip(p as int);
    if p < n {
        assert(s[0] == cs@[p as int] && s[1] == cs@[p + 1]);
        assert(s.skip(2) == cs@.skip(p + 2));
        p + 2
    } else {
        p
    }
}

fn hex_of(c: char) -> (r: Option<u32>)
    ensures
        match hex_digit(c) {
            Some(n) => r == Some(n as u32) && 0 <= n < 16,
            None => r is None,
        },
{
    if '0' <= c && c <= '9' {
        Some(c as u32 - 48)
    } else if 'a' <= c && c <= 'f' {
        Some(c as u32 - 97 + 10)
    } else if 'A' <= c && c <= 'F' {
        Some(c as u32 - 65 + 10)
    } else {
        None
    }
}

fn hex_pair_of(a: char, b: char) -> (c: char)
    ensures
        c == hex_pair(a, b) as char,
{
    let n: u32 = match (hex_of(a), hex_of(b)) {
        (Some(x), Some(y)) => 16 * x + y,
        (None, Some(y)) => if a == '+' {
            y
        } else {
            0
        },
        _ => 0,
    };
    (n as u8) as char
}

/// Calls `char::from_u32`: the character of a code that is neither too large
/// nor a surrogate, else nothing.
#[verifier::external_body]
fn char_of(n: u32) -> (c: Option<char>)
    ensures
        c == (if n < 0xD800 || 0xE000 <= n <= 0x10FFFF {
            Some(n as char)
        } else {
            None
        }),
{
    char::from_u32(n)
}

/// The escape after a backslash at `pos - 1`.
fn read_escape(cs: &Vec<char>, pos: usize) -> (r: Option<(char, usize)>)
    requires
        pos <= cs@.len(),
    ensures
        match escape(cs@.skip(pos as int)) {
            Some((c, n)) => r == Some((c, (pos + n) as usize)) && pos + n <= cs@.len() && n >= 1,
            None => r is None,
        },
{
    let ghost s = cs@.skip(pos as int);
    proof {
        lemma_escape_len(s);
    }
    if pos >= cs.len() {
        return None;
    }
    let c: char = cs[pos];
    assert(s[0] == c);
    if c == 'n' {
        Some(('\n', pos + 1))
    } else if c == 'r' {
        Some(('\r', pos + 1))
    } else if c == 't' {
        Some(('\t', pos + 1))
    } else if c == '0' {
        Some(('\0', pos + 1))
    } else if c == 'x' {
        if cs.len() - pos < 3 {
            None
        } else {
            assert(s[1] == cs@[pos + 1] && s[2] == cs@[pos + 2]);
            Some((hex_pair_of(cs[pos + 1], cs[pos + 2]), pos + 3))
        }
    } else if text::digit(c) {
        assert(cs@.subrange(pos as int, cs@.len() as int) == s);
        let end: usize = text::digits_end(cs, pos, cs.len());
        let stop: usize = if end - pos > 3 {
            pos + 3
        } else {
            end
        };
        let ghost run = cs@.subrange(pos as int, stop as int);
        proof {
            assert(run == s.take(stop - pos));
            lemma_run_is_digits(s, stop - pos);
            lemma_three_digits(run);
        }
        match text::parse_digits(cs, pos, stop) {
            Some(n) => match char_of(n as u32) {
                Some(d) => Some((d, stop)),
                None => None,
            },
            None => None,
        }
    } else {
        Some((c, pos + 1))
    }
}

proof fn lemma_run_is_digits(s: Seq<char>, n: int)
    requires
        0 < n <= text::digit_run(s),
    ensures
        n <= s.len(),
        text::all_digits(s.take(n)),
    decreases n,
{
    text::lemma_digit_run(s);
    if n > 1 {
        lemma_run_is_digits(s.skip(1), n - 1);
        assert forall|i: int| 0 <= i < n implies text::is_digit(#[trigger] s.take(n)[i]) by {
            if i > 0 {
                assert(s.take(n)[i] == s.skip(1).take(n - 1)[i - 1]);
            }
        }
    }
}

proof fn lemma_three_digits(s: Seq<char>)
    requires
        text::all_digits(s),
        s.len() <= 3,
    ensures
        text::digits_value(s) < 1000,
{
    let a = s.drop_last();
    let b = a.drop_last();
    assert(text::is_digit(s[s.len() - 1]));
    if s.len() >= 2 {
        assert(text::is_digit(s[s.len() - 2]));
        assert(a.last() == s[s.len() - 2]);
    }
    if s.len() == 3 {
        assert(text::is_digit(s[0]));
        assert(b.last() == s[0]);
        assert(b.drop_last().len() == 0);
    }
    reveal_with_fuel(text::digits_value, 4);
}

/// The string whose opening quote is at `pos - 1`.
fn read_quoted(cs: &Vec<char>, pos: usize, quote: char) -> (r: Result<(String, usize), LuaError>)
    requires
        pos <= cs@.len(),
    ensures
        match r {
            Ok((t, p)) => pos < p <= cs@.len() && quoted(cs@.skip(pos as int), quote) == Ok::<
                (Seq<char>, Seq<char>),
                LuaError,
            >((t@, cs@.skip(p as int))),
            Err(e) => quoted(cs@.skip(pos as int), quote) == Err::<(Seq<char>, Seq<char>), LuaError>(
                e,
            ),
        },
{
    let ghost whole = quoted(cs@.skip(pos as int), quote);
    let mut out: String = String::new();
    let mut p: usize = pos;
    while p < cs.len()
        invariant
            pos <= p <= cs@.len(),
            whole == quoted(cs@.skip(pos as int), quote),
            whole == (match quoted(cs@.skip(p as int), quote) {
                Err(e) => Err(e),
                Ok((t, rest)) => Ok((out@ + t, rest)),
            }),
        decreases cs@.len() - p,
    {
        let ghost s = cs@.skip(p as int);
        let ghost before = out@;
        let c: char = cs[p];
        assert(s[0] == c);
        assert(s.skip(1) == cs@.skip(p + 1));
        if c == quote {
            assert(out@ + Seq::<char>::empty() == out@);
            return Ok((out, p + 1));
        }
        if c == '\\' {
            match read_escape(cs, p + 1) {
                None => {
                    return Err(LuaError::BadEscape);
                },
                Some((d, next)) => {
                    out.push(d);
                    assert(s.skip(1 + (next - (p + 1))) == cs@.skip(next as int));
                    proof {
                        if let Ok((t, rest)) = quoted(cs@.skip(next as int), quote) {
                            assert(before + (seq![d] + t) == out@ + t);
                        }
                    }
                    p = next;
                },
            }
        } else {
            out.push(c);
            p += 1;
            proof {
                if let Ok((t, rest)) = quoted(cs@.skip(p as int), quote) {
                    assert(before + (seq![c] + t) == out@ + t);
                }
            }
        }
    }
    assert(cs@.skip(p as int).len() == 0);
    Err(LuaError::UnterminatedString)
}

fn number_char(c: char) -> (r: bool)
    ensures
        r == in_number(c),
{
    text::digit(c) || c == '.' || c == 'e' || c == 'E' || c == '+' || c == '-'
}

fn number_end(cs: &Vec<char>, pos: usize) -> (p: usize)
    requires
        pos <= cs@.len(),
    ensures
        pos <= p <= cs@.len(),
        p == pos + number_len(cs@.skip(pos as int)),
{
    let mut p: usize = pos;
    while p < cs.len() && number_char(cs[p])
        invariant
            pos <= p <= cs@.len(),
            p - pos + number_len(cs@.skip(p as int)) == number_len(cs@.skip(pos as int)),
        decreases cs@.len() - p,
    {
        let ghost s = cs@.skip(p as int);
        assert(s[0] == cs@[p as int]);
        assert(s.skip(1) == cs@.skip(p + 1));
        p += 1;
    }
    assert(p < cs@.len() ==> cs@.skip(p as int)[0] == cs@[p as int]);
    p
}

fn word_char(c: char) -> (r: bool)
    ensures
        r == in_word(c),
{
    text::letter(c) || text::digit(c) || c == '_'
}

fn ident_end(cs: &Vec<char>, pos: usize) -> (p: usize)
    requires
        pos <= cs@.len(),
    ensures
        pos <= p <= cs@.len(),
        p == pos + ident_len(cs@.skip(pos as int)),
{
    let mut p: usize = pos;
    while p < cs.len() && word_char(cs[p])
        invariant
            pos <= p <= cs@.len(),
            p - pos + ident_len(cs@.skip(p as int)) == ident_len(cs@.skip(pos as int)),
        decreases cs@.len() - p,
    {
        let ghost s = cs@.skip(p as int);
        assert(s[0] == cs@[p as int]);
        assert(s.skip(1) == cs@.skip(p + 1));
        p += 1;
    }
    assert(p < cs@.len() ==> cs@.skip(p as int)[0] == cs@[p as int]);
    p
}

fn key_of_number(x: String) -> (k: LuaKey)
    ensures
        k@ == number_key(x@),
{
    let cs: Vec<char> = to_chars(x.as_str());
    assert(cs@.subrange(0, cs@.len() as int) == cs@);
    let n: usize = cs.len();
    let minus: bool = n > 0 && cs[0] == '-';
    let start: usize = if n > 0 && (cs[0] == '-' || cs[0] == '+') {
        1
    } else {
        0
    };
    assert(n > 0 ==> x@.skip(1) == cs@.subrange(1, n as int));
    let value: Option<i64> = match text::parse_digits(&cs, start, n) {
        None => None,
        Some(m) => if minus {
            if m <= 0x8000_0000_0000_0000 {
                Some((-(m as i128)) as i64)
            } else {
                None
            }
        } else if m <= 0x7FFF_FFFF_FFFF_FFFF {
            Some(m as i64)
        } else {
            None
        },
    };
    match value {
        None => LuaKey::Numeral(x),
        Some(v) => {
            let mut canonical: String = String::new();
            push_signed(&mut canonical, v);
            assert(canonical@ == text::signed_decimal(v as int));
            if text::same(canonical.as_str(), x.as_str()) {
                LuaKey::Int(v)
            } else {
                LuaKey::Numeral(x)
            }
        },
    }
}

/// `r` is what a reader makes of `cs` from a position, as far as a value goes.
pub open spec fn value_read(
    cs: Seq<char>,
    pos: int,
    r: Result<(LuaValue, usize), LuaError>,
) -> bool {
    match r {
        Ok((v, p)) => pos < p <= cs.len() && value(cs.skip(pos)) == Ok::<
            (Lua, Seq<char>),
            LuaError,
        >((v@, cs.skip(p as int))),
        Err(e) => value(cs.skip(pos)) == Err::<(Lua, Seq<char>), LuaError>(e),
    }
}

fn read_value(cs: &Vec<char>, pos: usize) -> (r: Result<(LuaValue, usize), LuaError>)
    requires
        pos <= cs@.len() < i64::MAX,
    ensures
        value_read(cs@, pos as int, r),
    decreases cs@.len() - pos, 0int,
{
    let p: usize = skip_blank(cs, pos);
    let ghost t = cs@.skip(p as int);
    if p >= cs.len() {
        return Err(LuaError::EndOfFile);
    }
    let c: char = cs[p];
    assert(t[0] == c);
    assert(t.skip(1) == cs@.skip(p + 1));
    if c == '{' {
        match read_entries(cs, p + 1) {
            Ok((table, q)) => Ok((LuaValue::Table(table), q)),
            Err(e) => Err(e),
        }
    } else if c == '"' || c == '\'' {
        match read_quoted(cs, p + 1, c) {
            Ok((x, q)) => Ok((LuaValue::Text(x), q)),
            Err(e) => Err(e),
        }
    } else if c == '-' || text::digit(c) {
        let q: usize = number_end(cs, p);
        assert(cs@.subrange(p as int, q as int) == t.take(q - p));
        assert(t.skip(q - p) == cs@.skip(q as int));
        if text::float(cs, p, q) {
            Ok((LuaValue::Number(from_chars(cs, p, q)), q))
        } else {
            Err(LuaError::BadNumber)
        }
    } else if text::letter(c) || c == '_' {
        let q: usize = ident_end(cs, p);
        assert(cs@.subrange(p as int, q as int) == t.take(q - p));
        assert(t.skip(q - p) == cs@.skip(q as int));
        let token: String = from_chars(cs, p, q);
        if text::same(token.as_str(), "true") {
            Ok((LuaValue::Bool(true), q))
        } else if text::same(token.as_str(), "false") {
            Ok((LuaValue::Bool(false), q))
        } else if text::same(token.as_str(), "nil") {
            Ok((LuaValue::Nil, q))
        } else {
            Err(LuaError::Identifier)
        }
    } else {
        Err(LuaError::Unexpected(c))
    }
}

/// The key of the entry at `pos`, the position behind it, and whether it was
/// written out.
fn read_key(cs: &Vec<char>, pos: usize, next: i64) -> (r: Result<(LuaKey, usize, bool), LuaError>)
    requires
        pos < cs@.len() < i64::MAX,
    ensures
        match r {
            Ok((k, p, written)) => pos <= p <= cs@.len() && entry_key(
                cs@.skip(pos as int),
                next as int,
            ) == Ok::<(Key, Seq<char>, int), LuaError>(
                (
                    k@,
                    cs@.skip(p as int),
                    if written {
                        next as int
                    } else {
                        next + 1
                    },
                ),
            ),
            Err(e) => entry_key(cs@.skip(pos as int), next as int) == Err::<
                (Key, Seq<char>, int),
                LuaError,
            >(e),
        },
    decreases cs@.len() - pos, 1int,
{
    let n: usize = cs.len();
    let ghost s = cs@.skip(pos as int);
    assert(pos < n);
    assert(s[0] == cs@[pos as int]);
    assert(s.skip(1) == cs@.skip(pos + 1));
    if cs[pos] == '[' {
        match read_value(cs, pos + 1) {
            Err(e) => Err(e),
            Ok((k, a)) => {
                let b: usize = skip_blank(cs, a);
                assert(b < cs@.len() ==> cs@.skip(b as int)[0] == cs@[b as int]);
                if b >= cs.len() || cs[b] != ']' {
                    return Err(LuaError::Expected(']'));
                }
                assert(cs@.skip(b as int).skip(1) == cs@.skip(b + 1));
                let c: usize = skip_blank(cs, b + 1);
                assert(c < cs@.len() ==> cs@.skip(c as int)[0] == cs@[c as int]);
                if c >= cs.len() || cs[c] != '=' {
                    return Err(LuaError::Expected('='));
                }
                assert(cs@.skip(c as int).skip(1) == cs@.skip(c + 1));
                match k {
                    LuaValue::Text(x) => Ok((LuaKey::Text(x), c + 1, true)),
                    LuaValue::Number(x) => Ok((key_of_number(x), c + 1, true)),
                    _ => Err(LuaError::BadKey),
                }
            },
        }
    } else if text::letter(cs[pos]) || cs[pos] == '_' {
        let end: usize = ident_end(cs, pos);
        assert(s.skip(end - pos) == cs@.skip(end as int));
        assert(s.take(end - pos) == cs@.subrange(pos as int, end as int));
        let b: usize = skip_blank(cs, end);
        assert(b < cs@.len() ==> cs@.skip(b as int)[0] == cs@[b as int]);
        if b < cs.len() && cs[b] == '=' {
            assert(cs@.skip(b as int).skip(1) == cs@.skip(b + 1));
            Ok((LuaKey::Text(from_chars(cs, pos, end)), b + 1, true))
        } else {
            Ok((LuaKey::Int(next), pos, false))
        }
    } else {
        Ok((LuaKey::Int(next), pos, false))
    }
}

/// The table whose opening brace is at `pos - 1`.
fn read_entries(cs: &Vec<char>, pos: usize) -> (r: Result<(LuaTable, usize), LuaError>)
    requires
        pos <= cs@.len() < i64::MAX,
    ensures
        match r {
            Ok((t, p)) => pos < p <= cs@.len() && entries(cs@.skip(pos as int), 1) == Ok::<
                (Seq<(Key, Lua)>, Seq<char>),
                LuaError,
            >((t@, cs@.skip(p as int))),
            Err(e) => entries(cs@.skip(pos as int), 1) == Err::<
                (Seq<(Key, Lua)>, Seq<char>),
                LuaError,
            >(e),
        },
    decreases cs@.len() - pos, 2int,
{
    let ghost whole = entries(cs@.skip(pos as int), 1);
    let mut table: LuaTable = LuaTable { entries: Vec::new() };
    let mut p: usize = pos;
    let mut next: i64 = 1;
    proof {
        if let Ok((more, rest)) = whole {
            assert(view_entries(table.entries@) + more == more);
        }
    }
    loop
        invariant
            pos <= p <= cs@.len() < i64::MAX,
            1 <= next <= 1 + p,
            whole == (match entries(cs@.skip(p as int), next as int) {
                Err(e) => Err(e),
                Ok((more, rest)) => Ok((table@ + more, rest)),
            }),
            whole == entries(cs@.skip(pos as int), 1),
        decreases cs@.len() - p,
    {
        let ghost s = cs@.skip(p as int);
        let ghost before = table@;
        proof {
            lemma_skipped_shrinks(s);
        }
        let a: usize = skip_blank(cs, p);
        let ghost t = cs@.skip(a as int);
        if a >= cs.len() {
            return Err(LuaError::UnterminatedTable);
        }
        assert(t[0] == cs@[a as int]);
        if cs[a] == '}' {
            assert(t.skip(1) == cs@.skip(a + 1));
            assert(before + Seq::<(Key, Lua)>::empty() == before);
            return Ok((table, a + 1));
        }
        match read_key(cs, a, next) {
            Err(e) => {
                return Err(e);
            },
            Ok((k, u, written)) => match read_value(cs, u) {
                Err(e) => {
                    return Err(e);
                },
                Ok((v, w)) => {
                    let ghost kv = (k@, v@);
                    let ghost next2 = if written {
                        next as int
                    } else {
                        next + 1
                    };
                    proof {
                        lemma_view_push(table.entries@, (k, v));
                    }
                    table.entries.push((k, v));
                    let x: usize = skip_blank(cs, w);
                    let ghost xs = cs@.skip(x as int);
                    if x >= cs.len() {
                        return Err(LuaError::MissingSeparator);
                    }
                    assert(xs[0] == cs@[x as int]);
                    assert(xs.skip(1) == cs@.skip(x + 1));
                    assert(table@ == before.push(kv));
                    if cs[x] == ',' || cs[x] == ';' {
                        proof {
                            if let Ok((more, rest)) = entries(xs.skip(1), next2) {
                                assert(before + (seq![kv] + more) == table@ + more);
                            }
                        }
                        if !written {
                            next += 1;
                        }
                        p = x + 1;
                    } else if cs[x] == '}' {
                        assert(before + seq![kv] == table@);
                        return Ok((table, x + 1));
                    } else {
                        return Err(LuaError::MissingSeparator);
                    }
                },
            },
        }
    }
}

/// Read a text of the form `return { ... }`.
pub fn parse_lua_return_table(src: &str) -> (r: Result<LuaTable, LuaError>)
    requires
        src@.len() < i64::MAX,
    ensures
        match returned(src@) {
            Ok(es) => r matches Ok(t) && t@ == es,
            Err(e) => r == Err::<LuaTable, LuaError>(e),
        },
{
    let cs: Vec<char> = to_chars(src);
    assert(cs@.skip(0) == cs@);
    let p: usize = skip_blank(&cs, 0);
    let ghost t = cs@.skip(p as int);
    assert(cs@.subrange(p as int, cs@.len() as int) == t);
    if !text::starts_with(&cs, p, cs.len(), "return") {
        return Err(LuaError::NoReturn);
    }
    proof {
        reveal_strlit("return");
    }
    assert(t.skip(6) == cs@.skip(p + 6));
    match read_value(&cs, p + 6) {
        Err(e) => Err(e),
        Ok((v, _)) => match v {
            LuaValue::Table(table) => Ok(table),
            _ => Err(LuaError::NotATable),
        },
    }
}

// ------------------------------ Writing ------------------------------

/// A hexadecimal digit for a number below sixteen.
pub open spec fn hex_char(n: int) -> char {
    if n < 10 {
        ('0' as int + n) as char
    } else {
        ('a' as int + (n - 10)) as char
    }
}

/// A character as it stands in a quoted string.
pub open spec fn escaped_char(c: char) -> Seq<char> {
    if c == '\\' {
        seq!['\\', '\\']
    } else if c == '"' {
        seq!['\\', '"']
    } else if c == '\n' {
        seq!['\\', 'n']
    } else if c == '\r' {
        seq!['\\', 'r']
    } else if c == '\t' {
        seq!['\\', 't']
    } else if (c as int) < 0x20 {
        seq!['\\', 'x', hex_char(c as int / 16), hex_char(c as int % 16)]
    } else {
        seq![c]
    }
}

/// A text as it stands in a quoted string.
pub open spec fn escaped(s: Seq<char>) -> Seq<char>
    decreases s.len(),
{
    if s.len() == 0 {
        s
    } else {
        escaped_char(s[0]) + escaped(s.skip(1))
    }
}

/// A quoted string.
pub open spec fn string_text(s: Seq<char>) -> Seq<char> {
    seq!['"'] + escaped(s) + seq!['"']
}

/// A key as it stands in square brackets.
pub open spec fn key_text(k: Key) -> Seq<char> {
    match k {
        Key::Text(s) => string_text(s),
        Key::Int(n) => text::signed_decimal(n),
        Key::Numeral(s) => s,
    }
}

/// A value as it is written; the lines of a table are indented by `pad` and
/// four more spaces.
pub open spec fn value_text(v: Lua, pad: Seq<char>) -> Seq<char>
    decreases v, 0int,
{
    match v {
        Lua::Nil => "nil"@,
        Lua::Bool(b) => if b {
            "true"@
        } else {
            "false"@
        },
        Lua::Number(s) => s,
        Lua::Text(s) => string_text(s),
        Lua::Table(es) => if es.len() == 0 {
            "{}"@
        } else {
            seq!['{'] + lines_text(es, pad + "    "@) + (seq!['\n'] + pad + seq!['}'])
        },
    }
}

/// Entries, one per line.
pub open spec fn lines_text(es: Seq<(Key, Lua)>, pad: Seq<char>) -> Seq<char>
    decreases es, 1int,
{
    if es.len() == 0 {
        Seq::empty()
    } else {
        (seq!['\n'] + pad + seq!['['] + key_text(es[0].0) + "] = "@ + value_text(es[0].1, pad)
            + seq![',']) + lines_text(es.skip(1), pad)
    }
}

fn hex_char_of(n: u32) -> (c: char)
    requires
        n < 16,
    ensures
        c == hex_char(n as int),
{
    if n < 10 {
        (48u8 + n as u8) as char
    } else {
        (97u8 + (n as u8 - 10u8)) as char
    }
}

fn write_escaped(c: char, out: &mut String)
    ensures
        final(out)@ == old(out)@ + escaped_char(c),
{
    let ghost before = out@;
    if c == '\\' {
        out.push('\\');
        out.push('\\');
    } else if c == '"' {
        out.push('\\');
        out.push('"');
    } else if c == '\n' {
        out.push('\\');
        out.push('n');
    } else if c == '\r' {
        out.push('\\');
        out.push('r');
    } else if c == '\t' {
        out.push('\\');
        out.push('t');
    } else if (c as u32) < 0x20 {
        out.push('\\');
        out.push('x');
        out.push(hex_char_of(c as u32 / 16));
        out.push(hex_char_of(c as u32 % 16));
    } else {
        out.push(c);
    }
    assert(out@ =~= before + escaped_char(c));
}

fn write_string(s: &str, out: &mut String)
    ensures
        final(out)@ == old(out)@ + string_text(s@),
{
    let ghost before = out@;
    let cs: Vec<char> = to_chars(s);
    out.push('"');
    let ghost opened = out@;
    let mut i: usize = 0;
    assert(cs@.skip(0) == cs@);
    while i < cs.len()
        invariant
            i <= cs@.len(),
            cs@ == s@,
            opened + escaped(s@) == out@ + escaped(cs@.skip(i as int)),
        decreases cs@.len() - i,
    {
        let ghost rest = cs@.skip(i as int);
        let ghost sofar = out@;
        assert(rest[0] == cs@[i as int]);
        assert(rest.skip(1) == cs@.skip(i + 1));
        write_escaped(cs[i], out);
        assert(sofar + (escaped_char(rest[0]) + escaped(rest.skip(1))) == out@ + escaped(
            rest.skip(1),
        ));
        i += 1;
    }
    assert(out@ + escaped(cs@.skip(i as int)) == out@);
    out.push('"');
    assert(out@ == before + string_text(s@));
}

/// Append a value. `pad` is the indentation of the line it starts on.
fn write_lua_value(v: &LuaValue, pad: &str, out: &mut String)
    ensures
        final(out)@ == old(out)@ + value_text(v@, pad@),
    decreases v, 0int,
{
    match v {
        LuaValue::Nil => push_str(out, "nil"),
        LuaValue::Bool(b) => {
            if *b {
                push_str(out, "true");
            } else {
                push_str(out, "false");
            }
        },
        LuaValue::Number(s) => push_str(out, s.as_str()),
        LuaValue::Text(s) => write_string(s.as_str(), out),
        LuaValue::Table(t) => write_lua_table(t, pad, out),
    }
}

/// Append a table. `pad` is the indentation of the line it starts on.
pub fn write_lua_table(t: &LuaTable, pad: &str, out: &mut String)
    ensures
        final(out)@ == old(out)@ + value_text(Lua::Table(t@), pad@),
    decreases t, 1int,
{
    let ghost before = out@;
    proof {
        lemma_view_entries(t.entries@);
    }
    if t.entries.len() == 0 {
        push_str(out, "{}");
        return ;
    }
    let mut inner: String = text::owned(pad);
    push_str(&mut inner, "    ");
    out.push('{');
    let ghost opened = out@;
    let mut i: usize = 0;
    assert(t@.skip(0) == t@);
    while i < t.entries.len()
        invariant
            i <= t.entries@.len(),
            inner@ == pad@ + "    "@,
            t@.len() == t.entries@.len(),
            forall|k: int|
                0 <= k < t@.len() ==> #[trigger] t@[k] == (
                    t.entries@[k].0@,
                    t.entries@[k].1@,
                ),
            opened + lines_text(t@, inner@) == out@ + lines_text(t@.skip(i as int), inner@),
        decreases t.entries@.len() - i,
    {
        let ghost rest = t@.skip(i as int);
        let ghost sofar = out@;
        let e: &(LuaKey, LuaValue) = &t.entries[i];
        assert(rest[0] == (e.0@, e.1@)) by {
            assert(rest[0] == t@[i as int]);
        }
        assert(rest.skip(1) == t@.skip(i + 1));
        out.push('\n');
        push_str(out, inner.as_str());
        out.push('[');
        match &e.0 {
            LuaKey::Text(s) => write_string(s.as_str(), out),
            LuaKey::Int(n) => push_signed(out, *n),
            LuaKey::Numeral(s) => push_str(out, s.as_str()),
        }
        push_str(out, "] = ");
        assert(decreases_to!(t => t.entries@[i as int].1));
        write_lua_value(&e.1, inner.as_str(), out);
        out.push(',');
        let ghost line = seq!['\n'] + inner@ + seq!['['] + key_text(rest[0].0) + "] = "@
            + value_text(rest[0].1, inner@) + seq![','];
        assert(out@ =~= sofar + line);
        assert(sofar + (line + lines_text(rest.skip(1), inner@)) =~= out@ + lines_text(
            rest.skip(1),
            inner@,
        ));
        i += 1;
    }
    assert(t@.skip(i as int).len() == 0);
    assert(out@ + lines_text(t@.skip(i as int), inner@) =~= out@);
    out.push('\n');
    push_str(out, pad);
    out.push('}');
    assert(out@ =~= before + value_text(Lua::Table(t@), pad@));
}

} // verus!
