//! Single-precision numbers carried by their bit pattern.
use vstd::prelude::*;

verus! {

/// A 32-bit IEEE 754 number, held as its bit pattern.
///
/// Numbers are stored, compared against positive bounds and handed on here;
/// arithmetic on them belongs to the caller.
#[derive(Debug, Clone, Copy, PartialEq, Eq, Structural, Hash)]
pub struct Real32 {
    pub bits: u32,
}

/// Bits of 0.05.
pub const ONE_TWENTIETH: u32 = 0x3D4C_CCCD;
/// Bits of 0.1.
pub const ONE_TENTH: u32 = 0x3DCC_CCCD;
/// Bits of 0.5.
pub const ONE_HALF: u32 = 0x3F00_0000;
/// Bits of 1 / 1.2.
pub const FIVE_SIXTHS: u32 = 0x3F55_5555;
/// Bits of 0.9.
pub const NINE_TENTHS: u32 = 0x3F66_6666;
/// Bits of 0.95.
pub const NINETEEN_TWENTIETHS: u32 = 0x3F73_3333;
/// Bits of 1.0.
pub const ONE: u32 = 0x3F80_0000;
/// Bits of 1.2.
pub const SIX_FIFTHS: u32 = 0x3F99_999A;
/// Bits of 2.0.
pub const TWO: u32 = 0x4000_0000;
/// Bits of 10.0.
pub const TEN: u32 = 0x4120_0000;
/// Bits of 72.0.
pub const SEVENTY_TWO: u32 = 0x4290_0000;

impl Real32 {
    /// The sign bit is set.
    pub open spec fn negative(self) -> bool {
        self.bits >= 0x8000_0000
    }

    /// The bits below the sign bit. Among numbers that are not NaN a larger
    /// magnitude means a larger absolute value.
    pub open spec fn magnitude(self) -> int {
        self.bits as int % 0x8000_0000
    }

    /// Not a number.
    pub open spec fn nan(self) -> bool {
        self.magnitude() > 0x7F80_0000
    }

    /// Strictly greater than zero (infinity included, NaN excluded).
    pub open spec fn positive(self) -> bool {
        !self.nan() && !self.negative() && self.magnitude() > 0
    }

    /// `self` forced into `[lo, hi]` for positive bounds; NaN stays NaN.
    pub open spec fn clamped(self, lo: Real32, hi: Real32) -> Real32 {
        if self.nan() {
            self
        } else if self.negative() || self.bits < lo.bits {
            lo
        } else if self.bits > hi.bits {
            hi
        } else {
            self
        }
    }

    /// A whole number that orders numbers as they are ordered; both zeros have
    /// the same.
    pub open spec fn rank(self) -> int {
        if self.negative() {
            -self.magnitude()
        } else {
            self.magnitude()
        }
    }

    /// `self` is at most `other`; nothing is at most or at least NaN.
    pub open spec fn at_most(self, other: Real32) -> bool {
        !self.nan() && !other.nan() && self.rank() <= other.rank()
    }

    /// The number is this times two to the power of `exponent`, where it is
    /// neither negative nor NaN nor infinite.
    pub open spec fn significand(self) -> int {
        let m = self.magnitude() % 0x80_0000;
        if self.magnitude() < 0x80_0000 {
            m
        } else {
            m + 0x80_0000
        }
    }

    pub open spec fn exponent(self) -> int {
        if self.magnitude() < 0x80_0000 {
            -149
        } else {
            self.magnitude() / 0x80_0000 - 150
        }
    }

    /// The number in 256ths, rounded to the nearest whole number, halves up;
    /// 0 for what is negative or NaN, and the largest `u32` for what is
    /// larger.
    pub open spec fn in_256ths(self) -> int {
        let k = self.exponent() + 8;
        let n = if k >= 0 {
            self.significand() * two_to(k as nat)
        } else {
            (2 * self.significand() + two_to((-k) as nat)) / (2 * two_to((-k) as nat)) as int
        };
        if self.nan() || self.negative() {
            0
        } else if n > u32::MAX {
            u32::MAX as int
        } else {
            n
        }
    }

    /// The number in whole 256ths.
    pub fn quantise(self) -> (q: u32)
        ensures
            q == self.in_256ths(),
    {
        if self.bits > 0x7F80_0000 {
            return 0;
        }
        let small: bool = self.bits < 0x80_0000;
        let sig: u64 = (self.bits % 0x80_0000) as u64 + (if small {
            0u64
        } else {
            0x80_0000u64
        });
        let e: i32 = (self.bits / 0x80_0000) as i32;
        let k: i32 = if small {
            -141
        } else {
            e - 142
        };
        assert(self.magnitude() == self.bits);
        assert(k == self.exponent() + 8);
        assert(sig == self.significand());
        if k > 9 {
            proof {
                lemma_two_to_grows(9, k as nat);
                lemma_two_to_nine();
                let t = two_to(k as nat) as int;
                assert(sig * t >= 0x80_0000 * 512) by (nonlinear_arith)
                    requires
                        sig >= 0x80_0000,
                        t >= 512,
                ;
            }
            u32::MAX
        } else if k >= 0 {
            proof {
                lemma_two_to_grows(k as nat, 9);
                lemma_two_to_nine();
            }
            let t: u64 = power_of_two(k as u32);
            assert(0 <= sig * t <= 0x100_0000 * 512) by (nonlinear_arith)
                requires
                    0 <= sig <= 0x100_0000,
                    0 <= t <= 512,
            ;
            let n: u64 = sig * t;
            if n > u32::MAX as u64 {
                u32::MAX
            } else {
                n as u32
            }
        } else if k <= -25 {
            proof {
                lemma_two_to_grows(25, (-k) as nat);
                lemma_two_to_nine();
                let t = two_to((-k) as nat) as int;
                assert(0 <= 2 * sig + t < 2 * t);
                vstd::arithmetic::div_mod::lemma_basic_div(2 * sig + t, 2 * t);
            }
            0
        } else {
            proof {
                lemma_two_to_grows((-k) as nat, 25);
                lemma_two_to_nine();
                lemma_two_to_grows(0, (-k) as nat);
            }
            let t: u64 = power_of_two((-k) as u32);
            let n: u64 = (2 * sig + t) / (2 * t);
            proof {
                vstd::arithmetic::div_mod::lemma_div_is_ordered_by_denominator(
                    2 * sig + t,
                    1,
                    2 * t as int,
                );
            }
            n as u32
        }
    }

    /// Whether the number is at most `other`.
    pub fn is_at_most(self, other: Real32) -> (b: bool)
        ensures
            b == self.at_most(other),
    {
        let a: u32 = self.bits % 0x8000_0000;
        let b: u32 = other.bits % 0x8000_0000;
        if a > 0x7F80_0000 || b > 0x7F80_0000 {
            return false;
        }
        let x: i64 = if self.bits >= 0x8000_0000 {
            -(a as i64)
        } else {
            a as i64
        };
        let y: i64 = if other.bits >= 0x8000_0000 {
            -(b as i64)
        } else {
            b as i64
        };
        x <= y
    }

    /// Whether the number is strictly greater than zero.
    pub fn is_positive(self) -> (b: bool)
        ensures
            b == self.positive(),
    {
        0 < self.bits && self.bits <= 0x7F80_0000
    }

    /// Force the number into `[lo, hi]`. Both bounds are positive.
    pub fn clamp(self, lo: Real32, hi: Real32) -> (r: Real32)
        requires
            lo.positive(),
            hi.positive(),
            lo.bits <= hi.bits,
        ensures
            r == self.clamped(lo, hi),
    {
        let magnitude: u32 = self.bits % 0x8000_0000;
        if magnitude > 0x7F80_0000 {
            self
        } else if self.bits >= 0x8000_0000 || self.bits < lo.bits {
            lo
        } else if self.bits > hi.bits {
            hi
        } else {
            self
        }
    }
}

/// Two to the power of `n`.
pub open spec fn two_to(n: nat) -> nat
    decreases n,
{
    if n == 0 {
        1
    } else {
        2 * two_to((n - 1) as nat)
    }
}

proof fn lemma_two_to_grows(m: nat, n: nat)
    requires
        m <= n,
    ensures
        1 <= two_to(m) <= two_to(n),
    decreases n,
{
    if m < n {
        lemma_two_to_grows(m, (n - 1) as nat);
    } else if n > 0 {
        lemma_two_to_grows((n - 1) as nat, (n - 1) as nat);
    }
}

proof fn lemma_two_to_nine()
    ensures
        two_to(9) == 512,
        two_to(25) == 0x200_0000,
{
    reveal_with_fuel(two_to, 26);
}

fn power_of_two(n: u32) -> (r: u64)
    requires
        n <= 25,
    ensures
        r == two_to(n as nat),
{
    let mut r: u64 = 1;
    let mut i: u32 = 0;
    while i < n
        invariant
            i <= n <= 25,
            r == two_to(i as nat),
        decreases n - i,
    {
        proof {
            lemma_two_to_grows(i as nat, 25);
            lemma_two_to_nine();
        }
        r = 2 * r;
        i += 1;
    }
    r
}

} // verus!
