//! Whether the terminal can show sixel pictures.
use vstd::prelude::*;

use crate::text::{self, digit, find_char, split_ranges, to_chars, trim_range};
use crate::tmux;

verus! {

/// Terminals that are known to show sixel pictures.
pub const SIXEL_TERMINALS: &'static str =
    "WezTerm, foot, Ghostty, Konsole, xterm (-ti vt340), iTerm2, mintty, Windows Terminal, mlterm";

/// The question that asks a terminal for its device attributes.
pub fn attributes_query(in_tmux: bool) -> (s: String)
    ensures
        s@ == tmux::wrapped("\x1b[c"@, in_tmux),
{
    tmux::wrap_for_tmux("\x1b[c", in_tmux)
}

/// The text without what precedes its first digit.
pub open spec fn from_digit(s: Seq<char>) -> Seq<char>
    decreases s.len(),
{
    if s.len() == 0 || text::is_digit(s[0]) {
        s
    } else {
        from_digit(s.skip(1))
    }
}

/// An attribute is the one for sixel pictures.
pub open spec fn is_sixel(part: Seq<char>) -> bool {
    from_digit(text::trimmed(part)) == seq!['4']
}

/// The reply up to its end.
pub open spec fn attributes(reply: Seq<char>) -> Seq<char> {
    match text::find(reply, 'c') {
        Some(i) => reply.take(i),
        None => reply,
    }
}

/// A reply names sixel pictures: one of its attributes is 4.
pub open spec fn names_sixel(reply: Seq<char>) -> bool {
    exists|k: int|
        0 <= k < text::split(attributes(reply), ';').len() && is_sixel(
            #[trigger] text::split(attributes(reply), ';')[k],
        )
}

fn sixel_part(cs: &Vec<char>, from: usize, to: usize) -> (b: bool)
    requires
        from <= to <= cs@.len(),
    ensures
        b == is_sixel(cs@.subrange(from as int, to as int)),
{
    let (a, z) = trim_range(cs, from, to);
    let ghost t = text::trimmed(cs@.subrange(from as int, to as int));
    let mut i: usize = a;
    while i < z && !digit(cs[i])
        invariant
            a <= i <= z <= cs@.len(),
            from_digit(t) == from_digit(cs@.subrange(i as int, z as int)),
        decreases z - i,
    {
        let ghost rest = cs@.subrange(i as int, z as int);
        assert(rest[0] == cs@[i as int]);
        assert(rest.skip(1) =~= cs@.subrange(i + 1, z as int));
        i += 1;
    }
    let ghost rest = cs@.subrange(i as int, z as int);
    proof {
        if i < z {
            assert(rest[0] == cs@[i as int]);
        }
        assert(from_digit(rest) == rest);
    }
    if z - i == 1 && cs[i] == '4' {
        assert(rest =~= seq!['4']);
        true
    } else {
        proof {
            if rest == seq!['4'] {
                assert(rest.len() == 1);
                assert(rest[0] == cs@[i as int]);
            }
        }
        false
    }
}

/// Whether a terminal that replied so to the device attributes question can
/// show sixel pictures. No reply, or one that is not understood, means no.
pub fn probe_sixel(reply: &str) -> (b: bool)
    ensures
        b == names_sixel(reply@),
{
    let cs: Vec<char> = to_chars(reply);
    let n: usize = cs.len();
    assert(cs@.subrange(0, n as int) =~= cs@);
    let end: usize = find_char(&cs, 0, n, 'c');
    proof {
        text::lemma_find(cs@, 'c');
        assert(attributes(reply@) =~= cs@.subrange(0, end as int));
    }
    let parts: Vec<(usize, usize)> = split_ranges(&cs, 0, end, ';');
    let ghost pieces = text::split(attributes(reply@), ';');
    let mut k: usize = 0;
    while k < parts.len()
        invariant
            k <= parts@.len() == pieces.len(),
            end <= cs@.len(),
            forall|j: int|
                0 <= j < parts@.len() ==> {
                    let (a, b) = #[trigger] parts@[j];
                    0 <= a <= b <= end && cs@.subrange(a as int, b as int) == pieces[j]
                },
            forall|j: int| 0 <= j < k ==> !is_sixel(#[trigger] pieces[j]),
            pieces == text::split(attributes(reply@), ';'),
        decreases parts@.len() - k,
    {
        let (a, b) = parts[k];
        assert(parts@[k as int] == (a, b));
        if sixel_part(&cs, a, b) {
            assert(is_sixel(pieces[k as int]));
            return true;
        }
        k += 1;
    }
    false
}

} // verus!
