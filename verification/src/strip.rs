//! Bottom status-strip geometry and renderer for the `talk-to` wrapper. Only bottom
//! rows are ever reserved, so the child keeps origin (1,1) and the full width and its
//! bytes can be forwarded verbatim.

use vstd::prelude::*;
use vstd::utf8::encode_utf8;
use crate::text::{dec, push_dec, push_str, string_from_chars};

verus! {

/// A terminal / PTY size in rows and columns.
#[derive(Debug, Clone, Copy, PartialEq, Eq, Structural)]
pub struct Winsize {
    pub rows: u16,
    pub cols: u16,
}

/// The result of reserving a bottom strip.
#[derive(Debug, Clone, Copy, PartialEq, Eq, Structural)]
pub struct StripGeometry {
    /// Winsize handed to the child: full width, height reduced by the strip.
    pub child: Winsize,
    /// 1-based row of the top of the reserved strip.
    pub strip_row: u16,
}

/// Reserve `strip_height` rows at the bottom of a `(rows, cols)` terminal. The child
/// keeps the full width and `rows - strip_height` rows (never below zero); the strip
/// starts on the first row past the child, and never above row 1.
pub fn geometry(rows: u16, cols: u16, strip_height: u16) -> (g: StripGeometry)
    ensures
        g.child.cols == cols,
        g.child.rows == if rows >= strip_height { rows - strip_height } else { 0 },
        g.strip_row == if g.child.rows < u16::MAX { g.child.rows + 1 } else { u16::MAX as int },
        g.strip_row >= 1,
{
    let child_rows: u16 = if rows >= strip_height { rows - strip_height } else { 0 };
    let strip_row: u16 = if child_rows < u16::MAX { child_rows + 1 } else { u16::MAX };
    StripGeometry { child: Winsize { rows: child_rows, cols }, strip_row }
}

/// The characters painted for the strip: save the cursor, move to `(strip_row, 1)`,
/// clear the line, write `● <state>`, restore the cursor.
pub open spec fn strip_chars(strip_row: u16, state: Seq<char>) -> Seq<char> {
    seq!['\u{1b}', '7', '\u{1b}', '['] + dec(strip_row as nat) + seq![';', '1', 'H', '\u{1b}', '[', '2', 'K', '\u{25cf}', ' '] + state + seq!['\u{1b}', '8']
}

/// Paint the status strip at `strip_row`, showing `state`; the bytes are returned for
/// the caller to write to the terminal.
pub fn render(strip_row: u16, state: &str) -> (b: Vec<u8>)
    ensures
        b@ == encode_utf8(strip_chars(strip_row, state@)),
{
    let mut v: Vec<char> = Vec::new();
    v.push('\u{1b}');
    v.push('7');
    v.push('\u{1b}');
    v.push('[');
    push_dec(&mut v, strip_row as u64);
    v.push(';');
    v.push('1');
    v.push('H');
    v.push('\u{1b}');
    v.push('[');
    v.push('2');
    v.push('K');
    v.push('\u{25cf}');
    v.push(' ');
    push_str(&mut v, state);
    v.push('\u{1b}');
    v.push('8');
    assert(v@ =~= strip_chars(strip_row, state@));
    let s = string_from_chars(&v);
    vstd::slice::slice_to_vec(s.as_str().as_bytes())
}

} // verus!
