//! Sixel output.
use vstd::prelude::*;

use crate::text::{self, push_decimal, push_str};
use crate::tmux::{self, wrap_for_tmux};

verus! {

/// Time spent on a frame, in nanoseconds, and the bytes that were written.
#[derive(Debug, Clone, Copy, PartialEq, Eq, Structural)]
pub struct SixelEmitTiming {
    pub encode: u64,
    pub write: u64,
    pub bytes: usize,
}

/// Why a picture cannot be encoded.
#[derive(Debug, Clone, Copy, PartialEq, Eq, Structural)]
pub enum SixelError {
    /// Width or height is not positive.
    BadExtent { width: i32, height: i32 },
    /// There are not as many bytes as the extent says.
    WrongSize { got: usize, expected: usize },
}

/// Whether a picture of that extent and number of bytes can be encoded.
pub fn check_input(len: usize, width: i32, height: i32) -> (r: Result<(), SixelError>)
    requires
        width > 0 && height > 0 ==> 4 * (width * height) <= i32::MAX,
    ensures
        r == (if width <= 0 || height <= 0 {
            Err(SixelError::BadExtent { width, height })
        } else if len != 4 * (width * height) {
            Err(SixelError::WrongSize { got: len, expected: (4 * (width * height)) as usize })
        } else {
            Ok(())
        }),
{
    if width <= 0 || height <= 0 {
        return Err(SixelError::BadExtent { width, height });
    }
    assert(0 < width * height) by (nonlinear_arith)
        requires
            width > 0,
            height > 0,
    ;
    let expected: usize = 4 * (width as usize * height as usize);
    if len != expected {
        return Err(SixelError::WrongSize { got: len, expected });
    }
    Ok(())
}

/// The sequence that moves the cursor to a cell; cells are counted from 0.
pub open spec fn cursor_to(col: int, row: int) -> Seq<char> {
    "\x1b["@ + text::decimal((row + 1) as nat) + ";"@ + text::decimal((col + 1) as nat) + "H"@
}

pub(crate) fn push_cursor(out: &mut String, col: u16, row: u16)
    ensures
        final(out)@ == old(out)@ + cursor_to(col as int, row as int),
{
    let ghost before = out@;
    push_str(out, "\x1b[");
    push_decimal(out, row as u64 + 1);
    push_str(out, ";");
    push_decimal(out, col as u64 + 1);
    push_str(out, "H");
    assert(out@ =~= before + cursor_to(col as int, row as int));
}

/// What to write to show an encoded picture at a cell.
pub fn emit_dcs(dcs: &str, col: u16, row: u16, in_tmux: bool) -> (s: String)
    ensures
        s@ == cursor_to(col as int, row as int) + tmux::wrapped(dcs@, in_tmux),
{
    let mut out: String = String::new();
    push_cursor(&mut out, col, row);
    let payload: String = wrap_for_tmux(dcs, in_tmux);
    push_str(&mut out, payload.as_str());
    assert(out@ =~= cursor_to(col as int, row as int) + tmux::wrapped(dcs@, in_tmux));
    out
}

/// That many spaces.
pub open spec fn spaces(n: nat) -> Seq<char> {
    Seq::new(n, |i: int| ' ')
}

pub(crate) fn push_spaces(out: &mut String, n: usize)
    ensures
        final(out)@ == old(out)@ + spaces(n as nat),
{
    let ghost start = out@;
    let mut k: usize = 0;
    assert(start + spaces(0) =~= start);
    while k < n
        invariant
            k <= n,
            out@ == start + spaces(k as nat),
        decreases n - k,
    {
        out.push(' ');
        assert(out@ =~= start + spaces((k + 1) as nat));
        k += 1;
    }
}

/// What blanks a rectangle: spaces in each of its rows and nowhere else.
pub open spec fn blanks(col: int, row: int, cols: nat, rows: nat) -> Seq<char>
    decreases rows,
{
    if rows == 0 {
        Seq::empty()
    } else {
        blanks(col, row, cols, (rows - 1) as nat) + cursor_to(col, row + rows - 1) + spaces(cols)
    }
}

/// What to write to blank a rectangle of cells. Neighbouring windows are left
/// as they are.
pub fn blank_rect(col: u16, row: u16, cols: u16, rows: u16) -> (s: String)
    requires
        cols > 0 ==> row + rows <= u16::MAX,
    ensures
        s@ == (if cols == 0 {
            Seq::empty()
        } else {
            blanks(col as int, row as int, cols as nat, rows as nat)
        }),
{
    let mut out: String = String::new();
    assert(out@ =~= Seq::empty());
    if cols == 0 || rows == 0 {
        return out;
    }
    let mut r: u16 = 0;
    while r < rows
        invariant
            r <= rows,
            row + rows <= u16::MAX,
            out@ == blanks(col as int, row as int, cols as nat, r as nat),
        decreases rows - r,
    {
        let ghost before = out@;
        push_cursor(&mut out, col, row + r);
        push_spaces(&mut out, cols as usize);
        r += 1;
        assert(out@ =~= blanks(col as int, row as int, cols as nat, r as nat));
    }
    out
}

/// Colour mode for sixel output.
#[derive(Debug, Clone, Copy, PartialEq, Eq, Structural, Hash)]
pub enum ColorMode {
    /// 256-colour xterm palette: good default for mixed content.
    XTerm256,
    /// 8-bit grayscale palette: fastest for text-only pages.
    Grayscale,
}

impl ColorMode {
    pub open spec fn spec_tag(self) -> u8 {
        match self {
            ColorMode::XTerm256 => 0,
            ColorMode::Grayscale => 1,
        }
    }

    /// Stable one-byte tag for use in cache keys.
    pub fn tag(self) -> (t: u8)
        ensures
            t == self.spec_tag(),
    {
        match self {
            ColorMode::XTerm256 => 0,
            ColorMode::Grayscale => 1,
        }
    }
}

} // verus!
