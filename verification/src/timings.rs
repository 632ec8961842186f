//! Per-stage frame timings.
use vstd::prelude::*;

use crate::text::{self, push_decimal, push_str};

verus! {

/// Time spent on one frame, in nanoseconds per stage.
#[derive(Debug, Clone, Copy, PartialEq, Eq, Structural)]
pub struct FrameTiming {
    pub render: u64,
    pub compose: u64,
    pub encode: u64,
    pub write: u64,
    pub other: u64,
}

/// Nanoseconds rounded to whole milliseconds, halves up.
pub open spec fn millis(nanos: int) -> nat {
    ((nanos + 500_000) / 1_000_000) as nat
}

fn to_millis(nanos: u128) -> (ms: u64)
    requires
        nanos <= 5 * u64::MAX,
    ensures
        ms == millis(nanos as int),
{
    ((nanos + 500_000) / 1_000_000) as u64
}

impl FrameTiming {
    pub open spec fn spec_total(self) -> int {
        self.render + self.compose + self.encode + self.write + self.other
    }

    /// The status-bar badge.
    pub open spec fn badge(self) -> Seq<char> {
        "load:"@ + text::decimal(millis(self.spec_total())) + "ms r:"@ + text::decimal(
            millis(self.render as int),
        ) + " cm:"@ + text::decimal(millis(self.compose as int)) + " en:"@ + text::decimal(
            millis(self.encode as int),
        ) + " tx:"@ + text::decimal(millis(self.write as int)) + " ot:"@ + text::decimal(
            millis(self.other as int),
        )
    }

    /// Nanoseconds over all stages.
    pub fn total(&self) -> (t: u128)
        ensures
            t == self.spec_total(),
    {
        self.render as u128 + self.compose as u128 + self.encode as u128 + self.write as u128
            + self.other as u128
    }

    /// Total and stages in milliseconds, for the status bar.
    pub fn short_label(&self) -> (s: String)
        ensures
            s@ == self.badge(),
    {
        let mut s: String = String::new();
        push_str(&mut s, "load:");
        push_decimal(&mut s, to_millis(self.total()));
        push_str(&mut s, "ms r:");
        push_decimal(&mut s, to_millis(self.render as u128));
        push_str(&mut s, " cm:");
        push_decimal(&mut s, to_millis(self.compose as u128));
        push_str(&mut s, " en:");
        push_decimal(&mut s, to_millis(self.encode as u128));
        push_str(&mut s, " tx:");
        push_decimal(&mut s, to_millis(self.write as u128));
        push_str(&mut s, " ot:");
        push_decimal(&mut s, to_millis(self.other as u128));
        assert(s@ == self.badge());
        s
    }
}

} // verus!
