//! Where the window stands on the terminal.

use vstd::prelude::*;

verus! {

/// The number of rows that are missing below the cursor for a window of
/// `lines_to_show` rows, on a terminal of `terminal_height` rows with the
/// cursor on row `cursor_y`.
pub open spec fn missing_rows(cursor_y: int, terminal_height: int, lines_to_show: int) -> int {
    if cursor_y + lines_to_show > terminal_height {
        cursor_y + lines_to_show - terminal_height
    } else {
        0
    }
}

/// The number of rows by which the window has to start above the cursor so
/// that it ends on the last row of the terminal at the latest.
pub fn rows_short(cursor_y: u16, terminal_height: u16, lines_to_show: i8) -> (r: u16)
    requires
        lines_to_show > 0,
        cursor_y + lines_to_show <= u16::MAX,
    ensures
        r == missing_rows(cursor_y as int, terminal_height as int, lines_to_show as int),
{
    let ending_y: u16 = cursor_y + lines_to_show as u16;
    if ending_y > terminal_height {
        ending_y - terminal_height
    } else {
        0
    }
}

} // verus!
