//! tmux passthrough.
//!
//! tmux intercepts escape sequences of programs that run inside it. To hand
//! one on to the outer terminal it is wrapped in an envelope, `ESC P tmux ;`
//! before and `ESC \\` after it, with every `ESC` inside doubled. tmux strips
//! one of each two on the way out.
use vstd::prelude::*;

use crate::text::{self, push_str};

verus! {

/// The escape character.
pub const ESC: char = '\u{1b}';

/// The text with every escape character doubled.
pub open spec fn doubled(s: Seq<char>) -> Seq<char>
    decreases s.len(),
{
    if s.len() == 0 {
        s
    } else if s.last() == ESC {
        doubled(s.drop_last()).push(ESC).push(ESC)
    } else {
        doubled(s.drop_last()).push(s.last())
    }
}

/// The text as it is written: in an envelope inside tmux, else as it is.
pub open spec fn wrapped(payload: Seq<char>, in_tmux: bool) -> Seq<char> {
    if in_tmux {
        "\x1bPtmux;"@ + doubled(payload) + "\x1b\\"@
    } else {
        payload
    }
}

/// Wrap an escape sequence for tmux. Outside tmux it stays as it is.
pub fn wrap_for_tmux(payload: &str, in_tmux: bool) -> (s: String)
    ensures
        s@ == wrapped(payload@, in_tmux),
{
    if !in_tmux {
        return text::owned(payload);
    }
    let mut out: String = String::new();
    push_str(&mut out, "\x1bPtmux;");
    let cs: Vec<char> = text::to_chars(payload);
    let ghost head = out@;
    let mut i: usize = 0;
    assert(cs@.take(0).len() == 0);
    assert(out@ =~= head + doubled(cs@.take(0)));
    while i < cs.len()
        invariant
            i <= cs@.len(),
            out@ == head + doubled(cs@.take(i as int)),
        decreases cs@.len() - i,
    {
        let ghost t = cs@.take(i + 1);
        let ghost sofar = doubled(cs@.take(i as int));
        assert(t.drop_last() =~= cs@.take(i as int));
        assert(t.last() == cs@[i as int]);
        if cs[i] == ESC {
            out.push(ESC);
            out.push(ESC);
            assert(out@ =~= head + sofar.push(ESC).push(ESC));
        } else {
            out.push(cs[i]);
            assert(out@ =~= head + sofar.push(cs@[i as int]));
        }
        i += 1;
    }
    assert(cs@.take(i as int) =~= cs@);
    push_str(&mut out, "\x1b\\");
    out
}

/// What tmux hands on of the text in an envelope: of two escape characters
/// the first is dropped, and a single one ends the envelope.
pub open spec fn handed_on(s: Seq<char>) -> Seq<char>
    decreases s.len(),
{
    if s.len() == 0 {
        s
    } else if s[0] == ESC {
        if s.len() > 1 && s[1] == ESC {
            seq![ESC] + handed_on(s.skip(2))
        } else {
            Seq::empty()
        }
    } else {
        seq![s[0]] + handed_on(s.skip(1))
    }
}

proof fn lemma_doubled_front(s: Seq<char>)
    requires
        s.len() > 0,
    ensures
        doubled(s) == (if s[0] == ESC {
            seq![ESC, ESC]
        } else {
            seq![s[0]]
        }) + doubled(s.skip(1)),
    decreases s.len(),
{
    if s.len() == 1 {
        assert(s.drop_last() =~= Seq::empty());
        assert(s.skip(1) =~= Seq::empty());
        reveal_with_fuel(doubled, 2);
        assert(doubled(s) =~= (if s[0] == ESC {
            seq![ESC, ESC]
        } else {
            seq![s[0]]
        }) + doubled(s.skip(1)));
    } else {
        let init = s.drop_last();
        lemma_doubled_front(init);
        assert(init.skip(1) =~= s.skip(1).drop_last());
        assert(s.skip(1).last() == s.last());
        assert(doubled(s) =~= (if s[0] == ESC {
            seq![ESC, ESC]
        } else {
            seq![s[0]]
        }) + doubled(s.skip(1)));
    }
}

/// The outer terminal gets exactly the text that was wrapped: what tmux hands
/// on of the envelope's inside, up to its end, is the payload.
pub proof fn lemma_payload_arrives(payload: Seq<char>)
    ensures
        handed_on(doubled(payload) + "\x1b\\"@) == payload,
    decreases payload.len(),
{
    reveal_strlit("\x1b\\");
    let tail = "\x1b\\"@;
    if payload.len() == 0 {
        assert(doubled(payload) + tail =~= tail);
        assert(handed_on(tail) =~= payload);
    } else {
        let rest = payload.skip(1);
        lemma_doubled_front(payload);
        lemma_payload_arrives(rest);
        let whole = doubled(payload) + tail;
        if payload[0] == ESC {
            assert(whole.skip(2) =~= doubled(rest) + tail);
            assert(seq![ESC] + rest =~= payload);
        } else {
            assert(whole.skip(1) =~= doubled(rest) + tail);
            assert(seq![payload[0]] + rest =~= payload);
        }
    }
}

} // verus!
