//! The integer part of a number in text form.
use vstd::arithmetic::power::*;
use vstd::prelude::*;

use crate::text::{self, parse_digits, to_chars};

verus! {

/// `d` is a digit string with the decimal point after the first `k` digits;
/// this is the integer before the point.
pub open spec fn before_point(d: Seq<char>, k: int) -> int {
    if k <= 0 {
        0
    } else if k <= d.len() {
        text::digits_value(d.take(k)) as int
    } else {
        text::digits_value(d) * pow(10, (k - d.len()) as nat)
    }
}

/// The exponent that `e`, an optional sign and digits denote.
pub open spec fn exponent_value(s: Seq<char>) -> int {
    if s.len() == 0 {
        0
    } else if s.len() > 1 && s[1] == '-' {
        -(text::digits_value(s.skip(2)) as int)
    } else if s.len() > 1 && s[1] == '+' {
        text::digits_value(s.skip(2)) as int
    } else {
        text::digits_value(s.skip(1)) as int
    }
}

/// The digits of an unsigned numeral before and after the point, how many
/// stand before it, and where the exponent starts.
pub open spec fn point_at(s: Seq<char>) -> int {
    text::digit_run(s) as int
}

pub open spec fn has_point(s: Seq<char>) -> bool {
    point_at(s) < s.len() && s[point_at(s)] == '.'
}

pub open spec fn mantissa_end(s: Seq<char>) -> int {
    if has_point(s) {
        point_at(s) + 1 + text::digit_run(s.skip(point_at(s) + 1))
    } else {
        point_at(s)
    }
}

pub open spec fn mantissa(s: Seq<char>) -> Seq<char> {
    if has_point(s) {
        s.take(point_at(s)) + s.subrange(point_at(s) + 1, mantissa_end(s))
    } else {
        s.take(point_at(s))
    }
}

/// The integer part of a numeral, rounded towards zero.
pub open spec fn truncated(s: Seq<char>) -> int {
    let minus = s.len() > 0 && s[0] == '-';
    let body = if s.len() > 0 && (s[0] == '-' || s[0] == '+') {
        s.skip(1)
    } else {
        s
    };
    let n = before_point(
        mantissa(body),
        point_at(body) + exponent_value(body.skip(mantissa_end(body))),
    );
    if minus {
        -n
    } else {
        n
    }
}

/// `n` forced into the range from `min` to `max`.
pub open spec fn saturated(n: int, min: int, max: int) -> int {
    if n < min {
        min
    } else if n > max {
        max
    } else {
        n
    }
}

/// Larger than any 64-bit magnitude.
const LIMIT: u128 = 0x8000_0000_0000_0001;

proof fn lemma_times_ten(v: int, j: nat)
    ensures
        v * pow(10, j + 1) == (v * pow(10, j)) * 10,
{
    lemma_pow_adds(10, j, 1);
    vstd::arithmetic::power::lemma_pow1(10);
    assert(v * (pow(10, j) * 10) == (v * pow(10, j)) * 10) by (nonlinear_arith);
}

proof fn lemma_scaling_grows(v: int, j: nat, k: nat)
    requires
        v >= 0,
        j <= k,
    ensures
        v * pow(10, j) <= v * pow(10, k),
{
    lemma_pow_increases(10, j, k);
    assert(v * pow(10, j) <= v * pow(10, k)) by (nonlinear_arith)
        requires
            v >= 0,
            pow(10, j) <= pow(10, k),
    ;
}

/// The integer before the point, or `LIMIT` where that is as large.
/// `shift` is the number of digits before the point; `None` means more than
/// any text has.
fn capped(d: &Vec<char>, shift: Option<u128>) -> (r: u128)
    requires
        forall|k: int| 0 <= k < d@.len() ==> text::is_digit(#[trigger] d@[k]),
    ensures
        shift matches Some(k) ==> r == saturated(before_point(d@, k as int), 0, LIMIT as int),
        shift is None ==> forall|k: int|
            k >= d@.len() + 20 ==> r == saturated(#[trigger] before_point(d@, k), 0, LIMIT as int),
{
    let n: usize = d.len();
    let mut acc: u128 = 0;
    let mut i: usize = 0;
    assert(d@.take(0).len() == 0);
    let stop: usize = match shift {
        Some(k) => if k < n as u128 {
            k as usize
        } else {
            n
        },
        None => n,
    };
    while i < stop
        invariant
            i <= stop <= n == d@.len(),
            forall|k: int| 0 <= k < d@.len() ==> text::is_digit(#[trigger] d@[k]),
            acc == saturated(text::digits_value(d@.take(i as int)) as int, 0, LIMIT as int),
        decreases stop - i,
    {
        let c: char = d[i];
        proof {
            let t = d@.take(i + 1);
            assert(t.drop_last() == d@.take(i as int));
            assert(t.last() == d@[i as int]);
            assert(text::is_digit(d@[i as int]));
        }
        let v: u128 = acc * 10 + (c as u32 - 48) as u128;
        acc = if v > LIMIT {
            LIMIT
        } else {
            v
        };
        i += 1;
    }
    if stop < n {
        return acc;
    }
    assert(d@.take(n as int) == d@);
    let ghost v0 = text::digits_value(d@) as int;
    match shift {
        Some(k) => {
            let mut left: u128 = k - n as u128;
            let ghost mut done: nat = 0;
            proof {
                vstd::arithmetic::power::lemma_pow0(10);
                assert(v0 * pow(10, 0) == v0) by (nonlinear_arith)
                    requires
                        pow(10, 0) == 1,
                ;
            }
            while left > 0 && acc > 0 && acc < LIMIT
                invariant
                    n == d@.len(),
                    v0 == text::digits_value(d@),
                    k == n + done + left,
                    acc == saturated(v0 * pow(10, done), 0, LIMIT as int),
                decreases left,
            {
                proof {
                    lemma_times_ten(v0, done);
                    done = done + 1;
                }
                let v: u128 = acc * 10;
                acc = if v > LIMIT {
                    LIMIT
                } else {
                    v
                };
                left -= 1;
            }
            proof {
                let total = (k - n) as nat;
                lemma_scaling_grows(v0, done, total);
                lemma_pow_positive(10, done);
                if v0 == 0 {
                    assert(v0 * pow(10, total) == 0) by (nonlinear_arith)
                        requires
                            v0 == 0,
                    ;
                } else {
                    assert(v0 * pow(10, done) > 0) by (nonlinear_arith)
                        requires
                            v0 > 0,
                            pow(10, done) > 0,
                    ;
                }
                if total == 0 {
                    assert(v0 * pow(10, 0) == v0) by (nonlinear_arith)
                        requires
                            pow(10, 0) == 1,
                    ;
                }
            }
            acc
        },
        None => {
            proof {
                assert forall|k: int| k >= d@.len() + 20 implies (if v0 == 0 {
                    0int
                } else {
                    LIMIT as int
                }) == saturated(#[trigger] before_point(d@, k), 0, LIMIT as int) by {
                    let total = (k - d@.len()) as nat;
                    lemma_scaling_grows(v0, 20, total);
                    lemma_twenty();
                    if v0 == 0 {
                        assert(v0 * pow(10, total) == 0) by (nonlinear_arith)
                            requires
                                v0 == 0,
                        ;
                    } else {
                        assert(v0 * pow(10, 20) >= LIMIT) by (nonlinear_arith)
                            requires
                                v0 >= 1,
                                pow(10, 20) >= LIMIT,
                        ;
                    }
                }
            }
            if acc == 0 {
                0
            } else {
                LIMIT
            }
        },
    }
}

proof fn lemma_twenty()
    ensures
        pow(10, 20) >= LIMIT,
{
    reveal(pow);
    reveal_with_fuel(pow, 21);
    lemma_pow_adds(10, 10, 10);
    assert(pow(10, 10) == 10_000_000_000);
    assert(10_000_000_000 * 10_000_000_000 >= LIMIT);
}

/// A numeral, with a sign allowed before it.
pub open spec fn is_signed_numeral(s: Seq<char>) -> bool {
    text::is_numeral(
        if s.len() > 0 && (s[0] == '-' || s[0] == '+') {
            s.skip(1)
        } else {
            s
        },
    )
}

/// The integer that a text stands for: the integer part of a numeral, forced
/// into the range from `min` to `max`; zero for any other text.
pub open spec fn integer_of(s: Seq<char>, min: int, max: int) -> int {
    if is_signed_numeral(s) {
        saturated(truncated(s), min, max)
    } else {
        0
    }
}

/// The integer that a text stands for, forced into the 64-bit range.
pub fn to_i64(s: &str) -> (r: i64)
    ensures
        r == integer_of(s@, i64::MIN as int, i64::MAX as int),
{
    let cs: Vec<char> = to_chars(s);
    let n: usize = cs.len();
    let minus: bool = n > 0 && cs[0] == '-';
    let start: usize = if n > 0 && (cs[0] == '-' || cs[0] == '+') {
        1
    } else {
        0
    };
    let ghost body = cs@.skip(start as int);
    assert(start == 0 ==> body == cs@);
    assert(cs@.subrange(start as int, n as int) == body);
    if !text::numeral(&cs, start, n) {
        return 0;
    }
    let (digits, w, end): (Vec<char>, u64, usize) = read_mantissa(&cs, start);
    proof {
        lemma_exponent_starts(body);
        assert(cs@.skip(end as int) == body.skip(mantissa_end(body)));
    }
    let (down, size): (bool, Option<u64>) = read_exponent(&cs, end);
    let ghost k = point_at(body) + exponent_value(cs@.skip(end as int));
    assert(cs@.skip(end as int) == body.skip(mantissa_end(body)));
    proof {
        lemma_mantissa_digits(body);
        lemma_exponent_starts(body);
    }
    let r: u128 = if down {
        match size {
            Some(e) => if e >= w {
                0
            } else {
                capped(&digits, Some((w - e) as u128))
            },
            None => 0,
        }
    } else {
        match size {
            Some(e) => capped(&digits, Some(w as u128 + e as u128)),
            None => capped(&digits, None),
        }
    };
    assert(r == saturated(before_point(digits@, k), 0, LIMIT as int));
    proof {
        lemma_before_point_nonneg(digits@, k);
    }
    if minus {
        if r >= 0x8000_0000_0000_0000 {
            i64::MIN
        } else {
            (-(r as i128)) as i64
        }
    } else if r > 0x7FFF_FFFF_FFFF_FFFF {
        i64::MAX
    } else {
        r as i64
    }
}

/// The digits of the numeral at `start`, how many stand before the point, and
/// the position behind them.
fn read_mantissa(cs: &Vec<char>, start: usize) -> (r: (Vec<char>, u64, usize))
    requires
        start <= cs@.len(),
    ensures
        ({
            let body = cs@.skip(start as int);
            &&& r.0@ == mantissa(body)
            &&& r.1 == point_at(body)
            &&& start <= r.2 <= cs@.len()
            &&& r.2 == start + mantissa_end(body)
        }),
{
    let n: usize = cs.len();
    let ghost body = cs@.skip(start as int);
    assert(cs@.subrange(start as int, n as int) == body);
    let whole: usize = text::digits_end(cs, start, n);
    let mut digits: Vec<char> = Vec::new();
    push_range(cs, start, whole, &mut digits);
    assert(body.take(whole - start) == cs@.subrange(start as int, whole as int));
    assert(digits@ == body.take(whole - start));
    if whole < n && cs[whole] == '.' {
        assert(body[whole - start] == '.');
        assert(cs@.subrange(whole + 1, n as int) == body.skip(whole - start + 1));
        let end: usize = text::digits_end(cs, whole + 1, n);
        push_range(cs, whole + 1, end, &mut digits);
        assert(body.subrange(whole - start + 1, end - start) == cs@.subrange(
            whole + 1,
            end as int,
        ));
        (digits, (whole - start) as u64, end)
    } else {
        assert(whole < n ==> body[whole - start] == cs@[whole as int]);
        (digits, (whole - start) as u64, whole)
    }
}

/// Whether the exponent at `end` is negative, and its size where it fits.
fn read_exponent(cs: &Vec<char>, end: usize) -> (r: (bool, Option<u64>))
    requires
        end <= cs@.len(),
        end == cs@.len() || text::is_exponent(cs@.skip(end as int)),
    ensures
        ({
            let e = exponent_value(cs@.skip(end as int));
            match r.1 {
                Some(m) => e == (if r.0 {
                    -(m as int)
                } else {
                    m as int
                }),
                None => end + 20 <= cs@.len() && (if r.0 {
                    e < -(u64::MAX as int)
                } else {
                    e > u64::MAX
                }),
            }
        }),
{
    let n: usize = cs.len();
    if end >= n {
        return (false, Some(0));
    }
    let ghost rest = cs@.skip(end as int);
    let signed: bool = end + 1 < n && (cs[end + 1] == '-' || cs[end + 1] == '+');
    let negative: bool = end + 1 < n && cs[end + 1] == '-';
    let from: usize = if signed {
        end + 2
    } else {
        end + 1
    };
    assert(end + 1 < n ==> rest[1] == cs@[end + 1]);
    let ghost digits = cs@.subrange(from as int, n as int);
    assert(rest.skip(from - end) == digits);
    proof {
        lemma_value_below_power(digits);
        if digits.len() < 20 {
            lemma_pow_increases(10, digits.len(), 19);
            lemma_nineteen();
        }
    }
    (negative, parse_digits(cs, from, n))
}

/// A number is below the power of ten that its digits are counted by.
proof fn lemma_value_below_power(s: Seq<char>)
    requires
        forall|i: int| 0 <= i < s.len() ==> text::is_digit(#[trigger] s[i]),
    ensures
        text::digits_value(s) < pow(10, s.len()),
    decreases s.len(),
{
    if s.len() == 0 {
        lemma_pow0(10);
    } else {
        let t = s.drop_last();
        assert forall|i: int| 0 <= i < t.len() implies text::is_digit(#[trigger] t[i]) by {
            assert(t[i] == s[i]);
        }
        lemma_value_below_power(t);
        assert(text::is_digit(s[s.len() - 1]));
        lemma_times_ten(1, t.len());
    }
}

proof fn lemma_nineteen()
    ensures
        pow(10, 19) <= u64::MAX,
{
    reveal(pow);
    reveal_with_fuel(pow, 11);
    lemma_pow_adds(10, 10, 9);
    assert(pow(10, 10) == 10_000_000_000);
    assert(pow(10, 9) == 1_000_000_000);
    assert(10_000_000_000 * 1_000_000_000 <= u64::MAX);
}

proof fn lemma_exponent_starts(s: Seq<char>)
    requires
        text::is_numeral(s),
    ensures
        0 <= mantissa_end(s) <= s.len(),
        mantissa_end(s) == s.len() || text::is_exponent(s.skip(mantissa_end(s))),
{
    lemma_run_digits(s);
    if has_point(s) {
        lemma_run_digits(s.skip(point_at(s) + 1));
    }
}

proof fn lemma_before_point_nonneg(d: Seq<char>, k: int)
    ensures
        before_point(d, k) >= 0,
{
    if k > d.len() {
        lemma_pow_positive(10, (k - d.len()) as nat);
        assert(text::digits_value(d) * pow(10, (k - d.len()) as nat) >= 0) by (nonlinear_arith)
            requires
                text::digits_value(d) >= 0,
                pow(10, (k - d.len()) as nat) > 0,
        ;
    }
}

proof fn lemma_run_digits(s: Seq<char>)
    ensures
        text::digit_run(s) <= s.len(),
        forall|i: int| 0 <= i < text::digit_run(s) ==> text::is_digit(#[trigger] s[i]),
    decreases s.len(),
{
    if s.len() > 0 && text::is_digit(s[0]) {
        lemma_run_digits(s.skip(1));
        assert forall|i: int| 0 <= i < text::digit_run(s) implies text::is_digit(
            #[trigger] s[i],
        ) by {
            if i > 0 {
                assert(s.skip(1)[i - 1] == s[i]);
            }
        }
    }
}

proof fn lemma_mantissa_digits(s: Seq<char>)
    ensures
        forall|k: int| 0 <= k < mantissa(s).len() ==> text::is_digit(#[trigger] mantissa(s)[k]),
        mantissa(s).len() <= s.len(),
        point_at(s) <= s.len(),
{
    lemma_run_digits(s);
    if has_point(s) {
        let w = point_at(s);
        lemma_run_digits(s.skip(w + 1));
        assert forall|k: int| 0 <= k < mantissa(s).len() implies text::is_digit(
            #[trigger] mantissa(s)[k],
        ) by {
            if k < w {
                assert(mantissa(s)[k] == s[k]);
            } else {
                assert(mantissa(s)[k] == s.skip(w + 1)[k - w]);
            }
        }
    }
}

fn push_range(cs: &Vec<char>, from: usize, to: usize, out: &mut Vec<char>)
    requires
        from <= to <= cs@.len(),
    ensures
        final(out)@ == old(out)@ + cs@.subrange(from as int, to as int),
{
    let ghost before = out@;
    let mut i: usize = from;
    assert(before + cs@.subrange(from as int, from as int) == before);
    while i < to
        invariant
            from <= i <= to <= cs@.len(),
            out@ == before + cs@.subrange(from as int, i as int),
        decreases to - i,
    {
        out.push(cs[i]);
        i += 1;
        assert(out@ =~= before + cs@.subrange(from as int, i as int));
    }
}

} // verus!
