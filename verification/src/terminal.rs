//! Terminal pixel geometry.
use vstd::prelude::*;

use crate::text::{self, find_char, parse_u32, split_ranges, to_chars, trim_range};
use crate::tmux::{self, ESC};

verus! {

/// Size of the terminal in cells and pixels, and of a cell in pixels.
#[derive(Debug, Clone, Copy, PartialEq, Eq, Structural)]
pub struct TermGeom {
    pub cols: u16,
    pub rows: u16,
    pub px_w: u16,
    pub px_h: u16,
    pub cell_px_w: u16,
    pub cell_px_h: u16,
}

/// At least one.
pub open spec fn at_least_one(n: int) -> int {
    if n < 1 {
        1
    } else {
        n
    }
}

/// The low 16 bits.
pub open spec fn low16(n: int) -> int {
    n % 0x1_0000
}

/// The largest 16-bit number for what is larger.
pub open spec fn at_most_u16(n: int) -> int {
    if n > u16::MAX {
        u16::MAX as int
    } else {
        n
    }
}

/// The geometry for a size in cells and pixels.
pub open spec fn is_geometry(g: TermGeom, cols: u16, rows: u16, pw: u32, ph: u32) -> bool {
    let w = at_least_one(pw as int);
    let h = at_least_one(ph as int);
    &&& g.cols == cols
    &&& g.rows == rows
    &&& g.px_w == at_most_u16(w)
    &&& g.px_h == at_most_u16(h)
    &&& g.cell_px_w == low16(at_least_one(w / at_least_one(cols as int)))
    &&& g.cell_px_h == low16(at_least_one(h / at_least_one(rows as int)))
}

fn compose(cols: u16, rows: u16, pw: u32, ph: u32) -> (g: TermGeom)
    ensures
        is_geometry(g, cols, rows, pw, ph),
{
    let w: u32 = if pw < 1 {
        1
    } else {
        pw
    };
    let h: u32 = if ph < 1 {
        1
    } else {
        ph
    };
    let across: u32 = if cols < 1 {
        1
    } else {
        cols as u32
    };
    let down: u32 = if rows < 1 {
        1
    } else {
        rows as u32
    };
    let cell_w: u32 = if w / across < 1 {
        1
    } else {
        w / across
    };
    let cell_h: u32 = if h / down < 1 {
        1
    } else {
        h / down
    };
    TermGeom {
        cols,
        rows,
        px_w: if w > u16::MAX as u32 {
            u16::MAX
        } else {
            w as u16
        },
        px_h: if h > u16::MAX as u32 {
            u16::MAX
        } else {
            h as u16
        },
        cell_px_w: (cell_w % 0x1_0000) as u16,
        cell_px_h: (cell_h % 0x1_0000) as u16,
    }
}

/// The extent that a text like `640x480` denotes.
pub open spec fn extent_of(s: Seq<char>) -> Option<(nat, nat)> {
    let t = text::trimmed(s);
    match text::find(t, 'x') {
        None => None,
        Some(i) => match (
            text::unsigned_of(t.take(i), u32::MAX as nat),
            text::unsigned_of(t.skip(i + 1), u32::MAX as nat),
        ) {
            (Some(w), Some(h)) => Some((w, h)),
            _ => None,
        },
    }
}

/// Read a text like `640x480`.
pub fn parse_wxh(s: &str) -> (r: Option<(u32, u32)>)
    ensures
        match extent_of(s@) {
            Some((w, h)) => r matches Some(e) && e.0 == w && e.1 == h,
            None => r is None,
        },
{
    let cs: Vec<char> = to_chars(s);
    let n: usize = cs.len();
    let (from, to) = trim_range(&cs, 0, n);
    let ghost t = text::trimmed(s@);
    assert(cs@.subrange(0, n as int) =~= cs@);
    let x: usize = find_char(&cs, from, to, 'x');
    proof {
        text::lemma_find(t, 'x');
    }
    if x == to {
        return None;
    }
    assert(t.take(x - from) =~= cs@.subrange(from as int, x as int));
    assert(t.skip(x - from + 1) =~= cs@.subrange(x + 1, to as int));
    match (parse_u32(&cs, from, x), parse_u32(&cs, x + 1, to)) {
        (Some(w), Some(h)) => Some((w, h)),
        _ => None,
    }
}

/// Place of the first `ESC [` in a text.
pub open spec fn opening(s: Seq<char>) -> Option<int>
    decreases s.len(),
{
    if s.len() < 2 {
        None
    } else if s[0] == ESC && s[1] == '[' {
        Some(0)
    } else {
        match opening(s.skip(1)) {
            Some(i) => Some(i + 1),
            None => None,
        }
    }
}

proof fn lemma_opening(s: Seq<char>)
    ensures
        opening(s) matches Some(i) ==> {
            &&& 0 <= i <= s.len() - 2
            &&& s[i] == ESC && s[i + 1] == '['
            &&& forall|j: int| 0 <= j < i ==> !(#[trigger] s[j] == ESC && s[j + 1] == '[')
        },
        opening(s) is None ==> forall|j: int|
            0 <= j < s.len() - 1 ==> !(#[trigger] s[j] == ESC && s[j + 1] == '['),
    decreases s.len(),
{
    if s.len() >= 2 && !(s[0] == ESC && s[1] == '[') {
        let rest = s.skip(1);
        lemma_opening(rest);
        assert forall|j: int| 1 <= j < s.len() implies s[j] == rest[j - 1] by {}
    }
}

/// The body of the first control sequence that ends in `end`.
pub open spec fn csi_body(s: Seq<char>, end: char) -> Option<Seq<char>> {
    match opening(s) {
        None => None,
        Some(i) => match text::find(s.skip(i + 2), end) {
            None => None,
            Some(k) => Some(s.skip(i + 2).take(k)),
        },
    }
}

/// Where the body of the first control sequence that ends in `end` lies.
fn extract_csi_body(cs: &Vec<char>, end: char) -> (r: Option<(usize, usize)>)
    ensures
        match csi_body(cs@, end) {
            Some(b) => r matches Some((from, to)) && from <= to <= cs@.len() && cs@.subrange(
                from as int,
                to as int,
            ) == b,
            None => r is None,
        },
{
    let n: usize = cs.len();
    let mut i: usize = 0;
    while i < n && !(i + 1 < n && cs[i] == ESC && cs[i + 1] == '[')
        invariant
            i <= n == cs@.len(),
            forall|j: int|
                0 <= j < i ==> !(j + 1 < n && #[trigger] cs@[j] == ESC && cs@[j + 1] == '['),
        decreases n - i,
    {
        i += 1;
    }
    proof {
        lemma_opening(cs@);
    }
    if i == n {
        return None;
    }
    assert(opening(cs@) == Some(i as int));
    let from: usize = i + 2;
    assert(cs@.skip(from as int) =~= cs@.subrange(from as int, n as int));
    let to: usize = find_char(cs, from, n, end);
    proof {
        text::lemma_find(cs@.skip(from as int), end);
    }
    if to == n {
        return None;
    }
    assert(cs@.skip(from as int).take(to - from) =~= cs@.subrange(from as int, to as int));
    Some((from, to))
}

/// The text area in pixels, width and height, that a terminal's reply to
/// `CSI 14 t` tells: `ESC [ 4 ; height ; width t`.
pub open spec fn area_of(reply: Seq<char>) -> Option<(nat, nat)> {
    match csi_body(reply, 't') {
        None => None,
        Some(body) => {
            let parts = text::split(body, ';');
            if parts.len() != 3 || parts[0] != seq!['4'] {
                None
            } else {
                match (
                    text::unsigned_of(parts[1], u32::MAX as nat),
                    text::unsigned_of(parts[2], u32::MAX as nat),
                ) {
                    (Some(h), Some(w)) => Some((w, h)),
                    _ => None,
                }
            }
        },
    }
}

/// Read a terminal's reply to `CSI 14 t`. Other chatter may precede it.
pub fn parse_csi_14t(reply: &str) -> (r: Option<(u32, u32)>)
    ensures
        match area_of(reply@) {
            Some((w, h)) => r matches Some(e) && e.0 == w && e.1 == h,
            None => r is None,
        },
{
    let cs: Vec<char> = to_chars(reply);
    match extract_csi_body(&cs, 't') {
        None => None,
        Some((from, to)) => {
            let parts: Vec<(usize, usize)> = split_ranges(&cs, from, to, ';');
            if parts.len() != 3 {
                return None;
            }
            let (a, b) = parts[0];
            let ghost first = cs@.subrange(a as int, b as int);
            assert(parts@[0] == (a, b));
            if b - a != 1 || cs[a] != '4' {
                proof {
                    if first == seq!['4'] {
                        assert(first.len() == 1);
                        assert(first[0] == cs@[a as int]);
                    }
                }
                return None;
            }
            assert(first =~= seq!['4']);
            let (c, d) = parts[1];
            let (e, f) = parts[2];
            assert(parts@[1] == (c, d));
            assert(parts@[2] == (e, f));
            match (parse_u32(&cs, c, d), parse_u32(&cs, e, f)) {
                (Some(h), Some(w)) => Some((w, h)),
                _ => None,
            }
        },
    }
}

/// The question that asks a terminal for its text area.
pub fn area_query(in_tmux: bool) -> (s: String)
    ensures
        s@ == tmux::wrapped("\x1b[14t"@, in_tmux),
{
    tmux::wrap_for_tmux("\x1b[14t", in_tmux)
}

/// Cells and pixels as the system tells them, or a common size.
pub open spec fn window_size(winsize: Option<(u16, u16, u16, u16)>) -> (u16, u16, u16, u16) {
    match winsize {
        Some(s) => s,
        None => (80, 24, 0, 0),
    }
}

/// Neither the override nor the system tells the size in pixels, so the
/// terminal has to be asked.
pub open spec fn must_ask(
    override_px: Option<Seq<char>>,
    winsize: Option<(u16, u16, u16, u16)>,
) -> bool {
    let (_, _, pw, ph) = window_size(winsize);
    !(override_px matches Some(s) && extent_of(s) is Some) && (pw == 0 || ph == 0)
}

/// Whether the terminal has to be asked for its text area.
pub fn needs_query(override_px: Option<&str>, winsize: Option<(u16, u16, u16, u16)>) -> (b: bool)
    ensures
        b == must_ask(
            match override_px {
                Some(s) => Some(s@),
                None => None,
            },
            winsize,
        ),
{
    if let Some(s) = override_px {
        if parse_wxh(s).is_some() {
            return false;
        }
    }
    match winsize {
        Some((_, _, pw, ph)) => pw == 0 || ph == 0,
        None => true,
    }
}

/// The size in pixels: what the override says, else what the system tells,
/// else what the terminal replied, else a guess from a common cell size.
pub open spec fn pixels(
    override_px: Option<Seq<char>>,
    winsize: Option<(u16, u16, u16, u16)>,
    reply: Option<Seq<char>>,
) -> (int, int) {
    let (cols, rows, px_w, px_h) = window_size(winsize);
    if override_px matches Some(s) && extent_of(s) is Some {
        let e = extent_of(override_px->0)->0;
        (e.0 as int, e.1 as int)
    } else {
        let (pw, ph) = if px_w != 0 && px_h != 0 {
            (px_w as int, px_h as int)
        } else if reply matches Some(s) && area_of(s) is Some {
            let e = area_of(reply->0)->0;
            (e.0 as int, e.1 as int)
        } else {
            (px_w as int, px_h as int)
        };
        if pw == 0 || ph == 0 {
            (cols * 8, rows * 17)
        } else {
            (pw, ph)
        }
    }
}

/// The terminal's geometry. `override_px` is a size like `640x480` that goes
/// before all else, `winsize` is columns, rows, width and height as the
/// system tells them, and `reply` is the terminal's answer where it was asked.
pub fn query(
    override_px: Option<&str>,
    winsize: Option<(u16, u16, u16, u16)>,
    reply: Option<&str>,
) -> (g: TermGeom)
    ensures
        ({
            let (cols, rows, _, _) = window_size(winsize);
            let (pw, ph) = pixels(
                match override_px {
                    Some(s) => Some(s@),
                    None => None,
                },
                winsize,
                match reply {
                    Some(s) => Some(s@),
                    None => None,
                },
            );
            0 <= pw <= u32::MAX && 0 <= ph <= u32::MAX && is_geometry(
                g,
                cols,
                rows,
                pw as u32,
                ph as u32,
            )
        }),
{
    let (cols, rows, px_w, px_h) = match winsize {
        Some(s) => s,
        None => (80, 24, 0, 0),
    };
    if let Some(s) = override_px {
        if let Some((w, h)) = parse_wxh(s) {
            return compose(cols, rows, w, h);
        }
    }
    let mut pw: u32 = px_w as u32;
    let mut ph: u32 = px_h as u32;
    if pw == 0 || ph == 0 {
        if let Some(s) = reply {
            if let Some((w, h)) = parse_csi_14t(s) {
                pw = w;
                ph = h;
            }
        }
    }
    if pw == 0 || ph == 0 {
        pw = cols as u32 * 8;
        ph = rows as u32 * 17;
    }
    compose(cols, rows, pw, ph)
}

} // verus!
