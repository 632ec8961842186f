//! Small tools on text: conversion to and from characters, trimming, numbers.
use vstd::prelude::*;

verus! {

/// `String::push` appends one character.
pub assume_specification[ String::push ](s: &mut String, c: char)
    ensures
        final(s)@ == old(s)@.push(c),
;

/// The characters of `s`.
pub fn to_chars(s: &str) -> (cs: Vec<char>)
    ensures
        cs@ == s@,
{
    let mut cs: Vec<char> = Vec::new();
    for c in it: s.chars()
        invariant
            it.seq() == s@,
            cs@ == s@.take(it.index() as int),
    {
        cs.push(c);
    }
    assert(cs@ == s@);
    cs
}

/// The text made of `cs[from..to]`.
pub fn from_chars(cs: &Vec<char>, from: usize, to: usize) -> (s: String)
    requires
        from <= to <= cs@.len(),
    ensures
        s@ == cs@.subrange(from as int, to as int),
{
    let mut s: String = String::new();
    let mut i: usize = from;
    while i < to
        invariant
            from <= i <= to <= cs@.len(),
            s@ == cs@.subrange(from as int, i as int),
        decreases to - i,
    {
        s.push(cs[i]);
        i += 1;
        assert(s@ == cs@.subrange(from as int, i as int));
    }
    s
}

/// Append `more` to `out`.
pub fn push_str(out: &mut String, more: &str)
    ensures
        final(out)@ == old(out)@ + more@,
{
    out.append(more);
}

/// A copy of a piece of text.
pub fn owned(s: &str) -> (r: String)
    ensures
        r@ == s@,
{
    s.to_owned()
}

/// Whether two pieces of text are the same.
pub fn same(a: &str, b: &str) -> (r: bool)
    ensures
        r == (a@ == b@),
{
    same_chars(&to_chars(a), &to_chars(b))
}

/// Whether two lists of characters are the same.
pub fn same_chars(a: &Vec<char>, b: &Vec<char>) -> (r: bool)
    ensures
        r == (a@ == b@),
{
    if a.len() != b.len() {
        return false;
    }
    let mut i: usize = 0;
    while i < a.len()
        invariant
            i <= a@.len(),
            a@.len() == b@.len(),
            a@.take(i as int) == b@.take(i as int),
        decreases a@.len() - i,
    {
        if a[i] != b[i] {
            assert(a@[i as int] != b@[i as int]);
            return false;
        }
        assert(a@.take(i + 1) == a@.take(i as int).push(a@[i as int]));
        assert(b@.take(i + 1) == b@.take(i as int).push(b@[i as int]));
        i += 1;
    }
    assert(a@.take(i as int) == a@);
    assert(b@.take(i as int) == b@);
    true
}

/// The Unicode `White_Space` property.
pub open spec fn is_white(c: char) -> bool {
    ||| '\u{9}' <= c <= '\u{d}'
    ||| c == ' '
    ||| c == '\u{85}'
    ||| c == '\u{a0}'
    ||| c == '\u{1680}'
    ||| '\u{2000}' <= c <= '\u{200a}'
    ||| c == '\u{2028}'
    ||| c == '\u{2029}'
    ||| c == '\u{202f}'
    ||| c == '\u{205f}'
    ||| c == '\u{3000}'
}

/// Whether a character has the Unicode `White_Space` property.
pub fn white(c: char) -> (r: bool)
    ensures
        r == is_white(c),
{
    ('\u{9}' <= c && c <= '\u{d}') || c == ' ' || c == '\u{85}' || c == '\u{a0}' || c == '\u{1680}'
        || ('\u{2000}' <= c && c <= '\u{200a}') || c == '\u{2028}' || c == '\u{2029}' || c
        == '\u{202f}' || c == '\u{205f}' || c == '\u{3000}'
}

/// `s` without leading white space.
pub open spec fn trim_left(s: Seq<char>) -> Seq<char>
    decreases s.len(),
{
    if s.len() > 0 && is_white(s[0]) {
        trim_left(s.skip(1))
    } else {
        s
    }
}

/// `s` without trailing white space.
pub open spec fn trim_right(s: Seq<char>) -> Seq<char>
    decreases s.len(),
{
    if s.len() > 0 && is_white(s.last()) {
        trim_right(s.drop_last())
    } else {
        s
    }
}

/// `s` without white space at either end.
pub open spec fn trimmed(s: Seq<char>) -> Seq<char> {
    trim_right(trim_left(s))
}

/// The first index in `[from, to]` at which the range holds no leading white
/// space any more.
pub fn skip_white(cs: &Vec<char>, from: usize, to: usize) -> (i: usize)
    requires
        from <= to <= cs@.len(),
    ensures
        from <= i <= to,
        cs@.subrange(i as int, to as int) == trim_left(cs@.subrange(from as int, to as int)),
        i < to ==> !is_white(cs@[i as int]),
{
    let mut i: usize = from;
    while i < to && white(cs[i])
        invariant
            from <= i <= to <= cs@.len(),
            trim_left(cs@.subrange(i as int, to as int)) == trim_left(
                cs@.subrange(from as int, to as int),
            ),
        decreases to - i,
    {
        let ghost s = cs@.subrange(i as int, to as int);
        assert(s[0] == cs@[i as int]);
        assert(s.skip(1) == cs@.subrange(i + 1, to as int));
        i += 1;
    }
    proof {
        let s = cs@.subrange(i as int, to as int);
        if i < to {
            assert(s[0] == cs@[i as int]);
        }
    }
    i
}

/// The last index in `[from, to]` up to which the range holds no trailing
/// white space.
pub fn back_over_white(cs: &Vec<char>, from: usize, to: usize) -> (j: usize)
    requires
        from <= to <= cs@.len(),
    ensures
        from <= j <= to,
        cs@.subrange(from as int, j as int) == trim_right(cs@.subrange(from as int, to as int)),
{
    let mut j: usize = to;
    while j > from && white(cs[j - 1])
        invariant
            from <= j <= to <= cs@.len(),
            trim_right(cs@.subrange(from as int, j as int)) == trim_right(
                cs@.subrange(from as int, to as int),
            ),
        decreases j,
    {
        let ghost s = cs@.subrange(from as int, j as int);
        assert(s.last() == cs@[j - 1]);
        assert(s.drop_last() == cs@.subrange(from as int, j - 1));
        j -= 1;
    }
    proof {
        let s = cs@.subrange(from as int, j as int);
        if j > from {
            assert(s.last() == cs@[j - 1]);
        }
    }
    j
}

/// The range of `cs[from..to]` without white space at either end.
pub fn trim_range(cs: &Vec<char>, from: usize, to: usize) -> (r: (usize, usize))
    requires
        from <= to <= cs@.len(),
    ensures
        from <= r.0 <= r.1 <= to,
        cs@.subrange(r.0 as int, r.1 as int) == trimmed(cs@.subrange(from as int, to as int)),
{
    let i: usize = skip_white(cs, from, to);
    let j: usize = back_over_white(cs, i, to);
    (i, j)
}

/// A decimal digit.
pub open spec fn is_digit(c: char) -> bool {
    '0' <= c <= '9'
}

/// A non-empty run of decimal digits.
pub open spec fn all_digits(s: Seq<char>) -> bool {
    s.len() > 0 && forall|i: int| 0 <= i < s.len() ==> is_digit(#[trigger] s[i])
}

/// The number that a run of decimal digits denotes.
pub open spec fn digits_value(s: Seq<char>) -> nat
    decreases s.len(),
{
    if s.len() == 0 {
        0
    } else {
        digits_value(s.drop_last()) * 10 + (s.last() as nat - '0' as nat) as nat
    }
}

/// The decimal digits of `n`, without leading zeros.
pub open spec fn decimal(n: nat) -> Seq<char>
    decreases n,
{
    if n < 10 {
        seq![('0' as nat + n) as char]
    } else {
        decimal(n / 10).push(('0' as nat + n % 10) as char)
    }
}

/// `-` and the digits for a negative number, else the digits.
pub open spec fn signed_decimal(n: int) -> Seq<char> {
    if n < 0 {
        seq!['-'] + decimal((-n) as nat)
    } else {
        decimal(n as nat)
    }
}

/// Reading back what was printed gives the number.
pub proof fn lemma_decimal_reads_back(n: nat)
    ensures
        all_digits(decimal(n)),
        digits_value(decimal(n)) == n,
    decreases n,
{
    if n < 10 {
        let s = decimal(n);
        assert(s.drop_last() == Seq::<char>::empty());
        assert(s.last() == ('0' as nat + n) as char);
        assert(digits_value(s.drop_last()) == 0);
    } else {
        lemma_decimal_reads_back(n / 10);
        let s = decimal(n);
        assert(s.drop_last() == decimal(n / 10));
        assert forall|i: int| 0 <= i < s.len() implies is_digit(#[trigger] s[i]) by {
            if i < s.len() - 1 {
                assert(s[i] == decimal(n / 10)[i]);
            }
        }
    }
}

/// The digit character of `d`.
fn digit_char(d: u64) -> (c: char)
    requires
        d < 10,
    ensures
        c == ('0' as nat + d) as char,
{
    (48u8 + d as u8) as char
}

/// Append the decimal digits of `n`.
pub fn push_decimal(out: &mut String, n: u64)
    ensures
        final(out)@ == old(out)@ + decimal(n as nat),
    decreases n,
{
    if n >= 10 {
        push_decimal(out, n / 10);
    }
    out.push(digit_char(n % 10));
    assert(out@ == old(out)@ + decimal(n as nat));
}

/// Append the decimal digits of the number after `n`.
pub fn push_ordinal(out: &mut String, n: usize)
    ensures
        final(out)@ == old(out)@ + decimal((n + 1) as nat),
{
    let m: u128 = n as u128 + 1;
    if m >= 10 {
        push_decimal(out, (m / 10) as u64);
    }
    out.push(digit_char((m % 10) as u64));
    assert(out@ == old(out)@ + decimal((n + 1) as nat));
}

/// Append a signed number in decimal.
pub fn push_signed(out: &mut String, n: i64)
    ensures
        final(out)@ == old(out)@ + signed_decimal(n as int),
{
    if n < 0 {
        out.push('-');
        let m: u64 = (-(n as i128)) as u64;
        push_decimal(out, m);
        assert(out@ == old(out)@ + signed_decimal(n as int));
    } else {
        push_decimal(out, n as u64);
    }
}

/// `n` in decimal.
pub fn decimal_string(n: u64) -> (s: String)
    ensures
        s@ == decimal(n as nat),
{
    let mut s: String = String::new();
    push_decimal(&mut s, n);
    assert(s@ == decimal(n as nat));
    s
}

/// Whether a character is a decimal digit.
pub fn digit(c: char) -> (r: bool)
    ensures
        r == is_digit(c),
{
    '0' <= c && c <= '9'
}

/// A letter from A to Z, in either case.
pub open spec fn is_letter(c: char) -> bool {
    ('a' <= c <= 'z') || ('A' <= c <= 'Z')
}

/// Whether a character is a letter from A to Z, in either case.
pub fn letter(c: char) -> (r: bool)
    ensures
        r == is_letter(c),
{
    ('a' <= c && c <= 'z') || ('A' <= c && c <= 'Z')
}

/// The number that the digits `cs[from..to]` denote, where they are digits
/// and the number fits.
pub fn parse_digits(cs: &Vec<char>, from: usize, to: usize) -> (r: Option<u64>)
    requires
        from <= to <= cs@.len(),
    ensures
        ({
            let s = cs@.subrange(from as int, to as int);
            r == (if all_digits(s) && digits_value(s) <= u64::MAX {
                Some(digits_value(s) as u64)
            } else {
                None
            })
        }),
{
    let ghost s = cs@.subrange(from as int, to as int);
    if from == to {
        return None;
    }
    let mut i: usize = from;
    let mut total: u64 = 0;
    let mut over: bool = false;
    while i < to
        invariant
            from <= i <= to <= cs@.len(),
            s == cs@.subrange(from as int, to as int),
            forall|k: int| 0 <= k < i - from ==> is_digit(#[trigger] s[k]),
            over <==> digits_value(s.take(i - from)) > u64::MAX,
            !over ==> total == digits_value(s.take(i - from)),
        decreases to - i,
    {
        let c: char = cs[i];
        assert(s[i - from] == c);
        if !digit(c) {
            return None;
        }
        proof {
            let t = s.take(i - from);
            let u = s.take(i - from + 1);
            assert(u.drop_last() == t);
            assert(u.last() == c);
        }
        let d: u64 = (c as u32 - 48) as u64;
        let next: u128 = total as u128 * 10 + d as u128;
        if over || next > u64::MAX as u128 {
            over = true;
        } else {
            total = next as u64;
        }
        i += 1;
    }
    assert(s.take(i - from) == s);
    if over {
        None
    } else {
        Some(total)
    }
}

/// What an unsigned number of at most `max` written as `s` denotes: digits,
/// with a plus sign allowed before them.
pub open spec fn unsigned_of(s: Seq<char>, max: nat) -> Option<nat> {
    let body = if s.len() > 0 && s[0] == '+' {
        s.skip(1)
    } else {
        s
    };
    if all_digits(body) && digits_value(body) <= max {
        Some(digits_value(body))
    } else {
        None
    }
}

/// What a signed number in `[min, max]` written as `s` denotes: digits, with
/// a sign allowed before them.
pub open spec fn signed_of(s: Seq<char>, min: int, max: int) -> Option<int> {
    let minus = s.len() > 0 && s[0] == '-';
    let body = if s.len() > 0 && (s[0] == '+' || s[0] == '-') {
        s.skip(1)
    } else {
        s
    };
    let n = if minus {
        -(digits_value(body) as int)
    } else {
        digits_value(body) as int
    };
    if all_digits(body) && min <= n <= max {
        Some(n)
    } else {
        None
    }
}

/// Read `cs[from..to]` as an unsigned number.
pub fn parse_usize(cs: &Vec<char>, from: usize, to: usize) -> (r: Option<usize>)
    requires
        from <= to <= cs@.len(),
    ensures
        r == (match unsigned_of(cs@.subrange(from as int, to as int), usize::MAX as nat) {
            Some(n) => Some(n as usize),
            None => None,
        }),
{
    let start: usize = if from < to && cs[from] == '+' {
        from + 1
    } else {
        from
    };
    assert(from < to ==> cs@.subrange(from as int, to as int).skip(1) == cs@.subrange(
        from + 1,
        to as int,
    ));
    match parse_digits(cs, start, to) {
        Some(n) => if n <= usize::MAX as u64 {
            Some(n as usize)
        } else {
            None
        },
        None => None,
    }
}

/// Read `cs[from..to]` as an unsigned 32-bit number.
pub fn parse_u32(cs: &Vec<char>, from: usize, to: usize) -> (r: Option<u32>)
    requires
        from <= to <= cs@.len(),
    ensures
        r == (match unsigned_of(cs@.subrange(from as int, to as int), u32::MAX as nat) {
            Some(n) => Some(n as u32),
            None => None,
        }),
{
    let start: usize = if from < to && cs[from] == '+' {
        from + 1
    } else {
        from
    };
    assert(from < to ==> cs@.subrange(from as int, to as int).skip(1) == cs@.subrange(
        from + 1,
        to as int,
    ));
    match parse_digits(cs, start, to) {
        Some(n) => if n <= u32::MAX as u64 {
            Some(n as u32)
        } else {
            None
        },
        None => None,
    }
}

/// Place of the first `c` in `s`.
pub open spec fn find(s: Seq<char>, c: char) -> Option<int>
    decreases s.len(),
{
    if s.len() == 0 {
        None
    } else if s[0] == c {
        Some(0)
    } else {
        match find(s.skip(1), c) {
            Some(i) => Some(i + 1),
            None => None,
        }
    }
}

/// `find` finds the first, or that there is none.
pub proof fn lemma_find(s: Seq<char>, c: char)
    ensures
        find(s, c) matches Some(i) ==> {
            &&& 0 <= i < s.len()
            &&& s[i] == c
            &&& forall|j: int| 0 <= j < i ==> #[trigger] s[j] != c
        },
        find(s, c) is None ==> forall|j: int| 0 <= j < s.len() ==> #[trigger] s[j] != c,
    decreases s.len(),
{
    if s.len() > 0 && s[0] != c {
        let rest = s.skip(1);
        lemma_find(rest, c);
        assert forall|j: int| 1 <= j < s.len() implies s[j] == rest[j - 1] by {}
    }
}

/// Place of the first `c` in `cs[from..to]`, or `to`.
pub fn find_char(cs: &Vec<char>, from: usize, to: usize, c: char) -> (i: usize)
    requires
        from <= to <= cs@.len(),
    ensures
        from <= i <= to,
        match find(cs@.subrange(from as int, to as int), c) {
            Some(k) => i < to && i == from + k,
            None => i == to,
        },
{
    let ghost s = cs@.subrange(from as int, to as int);
    proof {
        lemma_find(s, c);
    }
    let mut i: usize = from;
    while i < to
        invariant
            from <= i <= to <= cs@.len(),
            s == cs@.subrange(from as int, to as int),
            forall|j: int| 0 <= j < i - from ==> #[trigger] s[j] != c,
        decreases to - i,
    {
        assert(s[i - from] == cs@[i as int]);
        if cs[i] == c {
            proof {
                lemma_find(s, c);
            }
            return i;
        }
        i += 1;
    }
    proof {
        lemma_find(s, c);
    }
    to
}

/// The pieces of `s` between the separators.
pub open spec fn split(s: Seq<char>, sep: char) -> Seq<Seq<char>>
    decreases s.len(),
    via split_decreases
{
    match find(s, sep) {
        None => seq![s],
        Some(i) => seq![s.take(i)] + split(s.skip(i + 1), sep),
    }
}

#[via_fn]
proof fn split_decreases(s: Seq<char>, sep: char) {
    lemma_find(s, sep);
}

/// Where the pieces of `cs[from..to]` between the separators begin and end.
pub fn split_ranges(cs: &Vec<char>, from: usize, to: usize, sep: char) -> (out: Vec<(usize, usize)>)
    requires
        from <= to <= cs@.len(),
    ensures
        ({
            let parts = split(cs@.subrange(from as int, to as int), sep);
            &&& out@.len() == parts.len()
            &&& forall|k: int|
                0 <= k < out@.len() ==> {
                    let (a, b) = #[trigger] out@[k];
                    from <= a <= b <= to && cs@.subrange(a as int, b as int) == parts[k]
                }
        }),
{
    let ghost whole = split(cs@.subrange(from as int, to as int), sep);
    let mut out: Vec<(usize, usize)> = Vec::new();
    let mut at: usize = from;
    loop
        invariant_except_break
            from <= at <= to <= cs@.len(),
            whole == split(cs@.subrange(from as int, to as int), sep),
            out@.len() <= whole.len(),
            whole.skip(out@.len() as int) == split(cs@.subrange(at as int, to as int), sep),
            forall|k: int|
                0 <= k < out@.len() ==> {
                    let (a, b) = #[trigger] out@[k];
                    from <= a <= b <= to && cs@.subrange(a as int, b as int) == whole[k]
                },
        invariant
            from <= to <= cs@.len(),
        ensures
            out@.len() == whole.len(),
            forall|k: int|
                0 <= k < out@.len() ==> {
                    let (a, b) = #[trigger] out@[k];
                    from <= a <= b <= to && cs@.subrange(a as int, b as int) == whole[k]
                },
        decreases to - at,
    {
        let ghost rest = cs@.subrange(at as int, to as int);
        let ghost n = out@.len() as int;
        let end: usize = find_char(cs, at, to, sep);
        proof {
            lemma_find(rest, sep);
            assert(split(rest, sep).len() >= 1);
            assert(whole.skip(n).len() == whole.len() - n);
            assert(whole.skip(n)[0] == whole[n]);
        }
        if end == to {
            assert(split(rest, sep) == seq![rest]);
            assert(whole[n] == rest);
            out.push((at, to));
            break ;
        }
        proof {
            assert(rest.take(end - at) =~= cs@.subrange(at as int, end as int));
            assert(rest.skip(end - at + 1) =~= cs@.subrange(end + 1, to as int));
            assert(whole.skip(n + 1) =~= split(rest, sep).skip(1));
            assert(split(rest, sep).skip(1) =~= split(rest.skip(end - at + 1), sep));
        }
        out.push((at, end));
        at = end + 1;
    }
    out
}

/// Read `cs[from..to]` as a signed number.
pub fn parse_i32(cs: &Vec<char>, from: usize, to: usize) -> (r: Option<i32>)
    requires
        from <= to <= cs@.len(),
    ensures
        r == (match signed_of(
            cs@.subrange(from as int, to as int),
            i32::MIN as int,
            i32::MAX as int,
        ) {
            Some(n) => Some(n as i32),
            None => None,
        }),
{
    let minus: bool = from < to && cs[from] == '-';
    let start: usize = if from < to && (cs[from] == '+' || cs[from] == '-') {
        from + 1
    } else {
        from
    };
    assert(from < to ==> cs@.subrange(from as int, to as int).skip(1) == cs@.subrange(
        from + 1,
        to as int,
    ));
    match parse_digits(cs, start, to) {
        Some(n) => if minus {
            if n <= 0x8000_0000 {
                Some((-(n as i64)) as i32)
            } else {
                None
            }
        } else if n <= 0x7FFF_FFFF {
            Some(n as i32)
        } else {
            None
        },
        None => None,
    }
}

/// Whether `cs[from..to]` starts with `prefix`.
pub fn starts_with(cs: &Vec<char>, from: usize, to: usize, prefix: &str) -> (r: bool)
    requires
        from <= to <= cs@.len(),
    ensures
        r == prefix@.is_prefix_of(cs@.subrange(from as int, to as int)),
{
    let ps: Vec<char> = to_chars(prefix);
    let ghost s = cs@.subrange(from as int, to as int);
    if ps.len() > to - from {
        return false;
    }
    let mut i: usize = 0;
    while i < ps.len()
        invariant
            i <= ps@.len() <= to - from,
            from <= to <= cs@.len(),
            ps@ == prefix@,
            s == cs@.subrange(from as int, to as int),
            forall|k: int| 0 <= k < i ==> ps@[k] == s[k],
        decreases ps@.len() - i,
    {
        if ps[i] != cs[from + i] {
            assert(s[i as int] == cs@[from + i]);
            assert(prefix@[i as int] != s.subrange(0, prefix@.len() as int)[i as int]);
            return false;
        }
        assert(s[i as int] == cs@[from + i]);
        i += 1;
    }
    assert(prefix@ =~= s.subrange(0, prefix@.len() as int));
    true
}

/// Length of the leading run of characters that are not white space.
pub open spec fn word_len(s: Seq<char>) -> nat
    decreases s.len(),
{
    if s.len() > 0 && !is_white(s[0]) {
        1 + word_len(s.skip(1))
    } else {
        0
    }
}

/// Where the leading run of characters in `cs[from..to]` that are not white
/// space ends.
pub fn word_end(cs: &Vec<char>, from: usize, to: usize) -> (i: usize)
    requires
        from <= to <= cs@.len(),
    ensures
        from <= i <= to,
        i == from + word_len(cs@.subrange(from as int, to as int)),
        i < to ==> is_white(cs@[i as int]),
{
    let mut i: usize = from;
    while i < to && !white(cs[i])
        invariant
            from <= i <= to <= cs@.len(),
            i - from + word_len(cs@.subrange(i as int, to as int)) == word_len(
                cs@.subrange(from as int, to as int),
            ),
        decreases to - i,
    {
        let ghost s = cs@.subrange(i as int, to as int);
        assert(s[0] == cs@[i as int]);
        assert(s.skip(1) == cs@.subrange(i + 1, to as int));
        i += 1;
    }
    proof {
        let s = cs@.subrange(i as int, to as int);
        if i < to {
            assert(s[0] == cs@[i as int]);
        }
    }
    i
}

/// Length of the leading run of decimal digits.
pub open spec fn digit_run(s: Seq<char>) -> nat
    decreases s.len(),
{
    if s.len() > 0 && is_digit(s[0]) {
        1 + digit_run(s.skip(1))
    } else {
        0
    }
}

/// Where the leading run of decimal digits in `cs[from..to]` ends.
pub fn digits_end(cs: &Vec<char>, from: usize, to: usize) -> (i: usize)
    requires
        from <= to <= cs@.len(),
    ensures
        from <= i <= to,
        i == from + digit_run(cs@.subrange(from as int, to as int)),
{
    let mut i: usize = from;
    while i < to && digit(cs[i])
        invariant
            from <= i <= to <= cs@.len(),
            i - from + digit_run(cs@.subrange(i as int, to as int)) == digit_run(
                cs@.subrange(from as int, to as int),
            ),
        decreases to - i,
    {
        let ghost s = cs@.subrange(i as int, to as int);
        assert(s[0] == cs@[i as int]);
        assert(s.skip(1) == cs@.subrange(i + 1, to as int));
        i += 1;
    }
    proof {
        let s = cs@.subrange(i as int, to as int);
        if i < to {
            assert(s[0] == cs@[i as int]);
        }
    }
    i
}

/// The lower-case form of a letter from A to Z; other characters stay.
pub open spec fn lower(c: char) -> char {
    if 'A' <= c <= 'Z' {
        (c as u32 + 32) as char
    } else {
        c
    }
}

/// The lower-case form of a letter from A to Z; other characters stay.
pub fn to_lower(c: char) -> (r: char)
    ensures
        r == lower(c),
{
    if 'A' <= c && c <= 'Z' {
        ((c as u8) + 32u8) as char
    } else {
        c
    }
}

/// `s` with every letter from A to Z in lower case.
pub open spec fn lowered(s: Seq<char>) -> Seq<char>
    decreases s.len(),
{
    if s.len() == 0 {
        s
    } else {
        lowered(s.drop_last()).push(lower(s.last()))
    }
}

/// `cs[from..to]` with every letter from A to Z in lower case.
pub fn lower_chars(cs: &Vec<char>, from: usize, to: usize) -> (r: Vec<char>)
    requires
        from <= to <= cs@.len(),
    ensures
        r@ == lowered(cs@.subrange(from as int, to as int)),
{
    let mut r: Vec<char> = Vec::new();
    let mut i: usize = from;
    assert(cs@.subrange(from as int, from as int) == Seq::<char>::empty());
    while i < to
        invariant
            from <= i <= to <= cs@.len(),
            r@ == lowered(cs@.subrange(from as int, i as int)),
        decreases to - i,
    {
        let ghost t = cs@.subrange(from as int, i + 1);
        assert(t.drop_last() == cs@.subrange(from as int, i as int));
        assert(t.last() == cs@[i as int]);
        r.push(to_lower(cs[i]));
        i += 1;
    }
    r
}

/// An exponent: `e` or `E`, an optional sign and digits.
pub open spec fn is_exponent(s: Seq<char>) -> bool {
    let digits = if s.len() > 1 && (s[1] == '+' || s[1] == '-') {
        s.skip(2)
    } else {
        s.skip(1)
    };
    s.len() > 0 && (s[0] == 'e' || s[0] == 'E') && all_digits(digits)
}

/// Digits with an optional point among or around them, then an optional
/// exponent.
pub open spec fn is_numeral(s: Seq<char>) -> bool {
    let whole = digit_run(s) as int;
    let point = whole < s.len() && s[whole] == '.';
    let fraction = if point {
        digit_run(s.skip(whole + 1)) as int
    } else {
        0int
    };
    let rest = if point {
        s.skip(whole + 1 + fraction)
    } else {
        s.skip(whole)
    };
    whole + fraction > 0 && (rest.len() == 0 || is_exponent(rest))
}

/// A floating-point number in text form: an optional sign, then a numeral or
/// `inf`, `infinity` or `nan` in any case.
pub open spec fn is_float(s: Seq<char>) -> bool {
    let body = if s.len() > 0 && (s[0] == '+' || s[0] == '-') {
        s.skip(1)
    } else {
        s
    };
    ||| lowered(body) == "inf"@
    ||| lowered(body) == "infinity"@
    ||| lowered(body) == "nan"@
    ||| is_numeral(body)
}

/// A run is part of the text, and all of it exactly where that is digits.
pub proof fn lemma_digit_run(s: Seq<char>)
    ensures
        digit_run(s) <= s.len(),
        s.len() > 0 ==> (all_digits(s) <==> digit_run(s) == s.len()),
    decreases s.len(),
{
    if s.len() > 0 {
        lemma_digit_run(s.skip(1));
        if all_digits(s) {
            assert(is_digit(s[0]));
            assert forall|i: int| 0 <= i < s.skip(1).len() implies is_digit(
                #[trigger] s.skip(1)[i],
            ) by {
                assert(s.skip(1)[i] == s[i + 1]);
            }
        }
        if digit_run(s) == s.len() {
            assert(is_digit(s[0]));
            assert forall|i: int| 0 <= i < s.len() implies is_digit(#[trigger] s[i]) by {
                if i > 0 {
                    assert(s.skip(1)[i - 1] == s[i]);
                }
            }
        }
    }
}

fn exponent(cs: &Vec<char>, from: usize, to: usize) -> (r: bool)
    requires
        from <= to <= cs@.len(),
    ensures
        r == is_exponent(cs@.subrange(from as int, to as int)),
{
    let ghost s = cs@.subrange(from as int, to as int);
    if from == to || !(cs[from] == 'e' || cs[from] == 'E') {
        return false;
    }
    assert(s[0] == cs@[from as int]);
    let start: usize = if from + 1 < to && (cs[from + 1] == '+' || cs[from + 1] == '-') {
        from + 2
    } else {
        from + 1
    };
    let end: usize = digits_end(cs, start, to);
    proof {
        let digits = cs@.subrange(start as int, to as int);
        if from + 1 < to {
            assert(s[1] == cs@[from + 1]);
        }
        assert(digits == s.skip(start - from));
        lemma_digit_run(digits);
    }
    start < to && end == to
}

/// Whether `cs[from..to]` is an unsigned numeral.
pub fn numeral(cs: &Vec<char>, from: usize, to: usize) -> (r: bool)
    requires
        from <= to <= cs@.len(),
    ensures
        r == is_numeral(cs@.subrange(from as int, to as int)),
{
    let ghost s = cs@.subrange(from as int, to as int);
    let whole: usize = digits_end(cs, from, to);
    let mut digits: usize = whole - from;
    let mut rest: usize = whole;
    if whole < to && cs[whole] == '.' {
        assert(s[whole - from] == '.');
        let end: usize = digits_end(cs, whole + 1, to);
        assert(cs@.subrange(whole + 1, to as int) == s.skip(whole - from + 1));
        digits = digits + (end - (whole + 1));
        rest = end;
    } else if whole < to {
        assert(s[whole - from] != '.');
    }
    assert(cs@.subrange(rest as int, to as int) == s.skip(rest - from));
    digits > 0 && (rest == to || exponent(cs, rest, to))
}

/// Whether `cs[from..to]` is a floating-point number in text form.
pub fn float(cs: &Vec<char>, from: usize, to: usize) -> (r: bool)
    requires
        from <= to <= cs@.len(),
    ensures
        r == is_float(cs@.subrange(from as int, to as int)),
{
    let ghost s = cs@.subrange(from as int, to as int);
    let start: usize = if from < to && (cs[from] == '+' || cs[from] == '-') {
        from + 1
    } else {
        from
    };
    proof {
        if from < to {
            assert(s[0] == cs@[from as int]);
            assert(s.skip(1) == cs@.subrange(from + 1, to as int));
        }
    }
    let word: Vec<char> = lower_chars(cs, start, to);
    same_chars(&word, &to_chars("inf")) || same_chars(&word, &to_chars("infinity")) || same_chars(
        &word,
        &to_chars("nan"),
    ) || numeral(cs, start, to)
}

} // verus!
