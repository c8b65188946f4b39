//! The text of one row of the window, with the matched characters marked.

use crate::item::positions_within;
use vstd::prelude::*;
use vstd::string::*;

verus! {

/// The escape sequence that sets a dark grey background.
pub open spec fn dark_grey_bg() -> Seq<char> {
    "\x1b[48;2;50;50;50m"@
}

/// The escape sequence that sets a dark blue background.
pub open spec fn dark_blue_bg() -> Seq<char> {
    "\x1b[48;2;13;88;138m"@
}

/// The escape sequence that sets a dark grey foreground.
pub open spec fn dark_grey_fg() -> Seq<char> {
    "\x1b[38;2;50;50;50m"@
}

/// The escape sequence that sets a green foreground.
pub open spec fn green_fg() -> Seq<char> {
    "\x1b[38;2;168;204;140m"@
}

/// The escape sequence that puts the background back to the default.
pub open spec fn reset_bg() -> Seq<char> {
    "\x1b[49m"@
}

/// The escape sequence that puts the foreground back to the default.
pub open spec fn reset_fg() -> Seq<char> {
    "\x1b[39m"@
}

/// Formats `DARK_GREY_BG` of `pastel_colours`. Believed of it: the text is
/// the 24-bit background sequence for the colour (50, 50, 50).
#[verifier::external_body]
fn dark_grey_bg_code() -> (r: String)
    ensures
        r@ == dark_grey_bg(),
{
    format!("{}", pastel_colours::DARK_GREY_BG)
}

/// Formats `DARK_BLUE_BG` of `pastel_colours`. Believed of it: the text is
/// the 24-bit background sequence for the colour (13, 88, 138).
#[verifier::external_body]
fn dark_blue_bg_code() -> (r: String)
    ensures
        r@ == dark_blue_bg(),
{
    format!("{}", pastel_colours::DARK_BLUE_BG)
}

/// Formats `DARK_GREY_FG` of `pastel_colours`. Believed of it: the text is
/// the 24-bit foreground sequence for the colour (50, 50, 50).
#[verifier::external_body]
fn dark_grey_fg_code() -> (r: String)
    ensures
        r@ == dark_grey_fg(),
{
    format!("{}", pastel_colours::DARK_GREY_FG)
}

/// Formats `GREEN_FG` of `pastel_colours`. Believed of it: the text is the
/// 24-bit foreground sequence for the colour (168, 204, 140).
#[verifier::external_body]
fn green_fg_code() -> (r: String)
    ensures
        r@ == green_fg(),
{
    format!("{}", pastel_colours::GREEN_FG)
}

/// Formats `RESET_BG` of `pastel_colours`. Believed of it: the text is the
/// sequence that selects the default background.
#[verifier::external_body]
fn reset_bg_code() -> (r: String)
    ensures
        r@ == reset_bg(),
{
    format!("{}", pastel_colours::RESET_BG)
}

/// Formats `RESET_FG` of `pastel_colours`. Believed of it: the text is the
/// sequence that selects the default foreground.
#[verifier::external_body]
fn reset_fg_code() -> (r: String)
    ensures
        r@ == reset_fg(),
{
    format!("{}", pastel_colours::RESET_FG)
}

/// A position is marked if it lies in the text and behind every position
/// marked before it.
pub open spec fn is_marked(len: int, from: int, position: usize) -> bool {
    from <= position < len
}

/// Where the unmarked rest of a text of `len` characters begins once the
/// positions are marked: behind the last marked position.
pub open spec fn cursor_after(len: int, positions: Seq<usize>) -> int
    decreases positions.len(),
{
    if positions.len() == 0 {
        0
    } else {
        let from = cursor_after(len, positions.drop_last());
        if is_marked(len, from, positions.last()) {
            positions.last() + 1
        } else {
            from
        }
    }
}

/// The characters of `text` from `from` up to the marked one at `at`, and
/// that one on a dark blue background; on the selected row the characters
/// before it stand on dark grey.
pub open spec fn marked_piece(text: Seq<char>, from: int, at: int, selected: bool) -> Seq<char> {
    let part = text.subrange(from, at);
    let hit = text.subrange(at, at + 1);
    if selected {
        dark_grey_bg() + part + reset_bg() + dark_blue_bg() + hit + reset_bg()
    } else {
        part + dark_blue_bg() + hit + reset_bg()
    }
}

/// The text up to the last marked position, with the marks. A position that
/// is outside the text, or not behind the one marked before it, is passed
/// over.
pub open spec fn marked_text(text: Seq<char>, positions: Seq<usize>, selected: bool) -> Seq<char>
    decreases positions.len(),
{
    if positions.len() == 0 {
        Seq::empty()
    } else {
        let before = marked_text(text, positions.drop_last(), selected);
        let from = cursor_after(text.len() as int, positions.drop_last());
        if is_marked(text.len() as int, from, positions.last()) {
            before + marked_piece(text, from, positions.last() as int, selected)
        } else {
            before
        }
    }
}

/// The row for a label: a marker (`>` on the selected row, a blank on the
/// others), two blanks, then the label with the matched characters marked.
pub open spec fn coloured_line(positions: Seq<usize>, text: Seq<char>, selected: bool) -> Seq<char> {
    let rest = text.subrange(cursor_after(text.len() as int, positions), text.len() as int);
    let marked = marked_text(text, positions, selected);
    if selected {
        dark_grey_bg() + green_fg() + ">"@ + reset_fg() + reset_bg() + dark_grey_fg() + "  "@
            + reset_fg() + marked + dark_grey_bg() + rest + reset_bg()
    } else {
        dark_grey_bg() + " "@ + reset_bg() + "  "@ + marked + rest
    }
}

/// Highlights the line. Will highlight matching search items, and also indicate
/// if it's a selected item.
pub fn get_coloured_line(fuzzy_indecies: &[usize], text: &str, is_selected: bool) -> (line: String)
    ensures
        line@ == coloured_line(fuzzy_indecies@, text@, is_selected),
{
    let grey_bg = dark_grey_bg_code();
    let blue_bg = dark_blue_bg_code();
    let no_bg = reset_bg_code();
    let no_fg = reset_fg_code();
    let len: usize = text.unicode_len();
    let ghost positions = fuzzy_indecies@;
    let mut marked = String::new();
    let mut start: usize = 0;
    let mut k: usize = 0;
    while k < fuzzy_indecies.len()
        invariant
            k <= positions.len(),
            positions == fuzzy_indecies@,
            len == text@.len(),
            start <= len,
            start == cursor_after(len as int, positions.take(k as int)),
            marked@ == marked_text(text@, positions.take(k as int), is_selected),
            grey_bg@ == dark_grey_bg(),
            blue_bg@ == dark_blue_bg(),
            no_bg@ == reset_bg(),
        decreases positions.len() - k,
    {
        let at: usize = fuzzy_indecies[k];
        let ghost before = marked@;
        proof {
            assert(positions.take(k + 1).drop_last() =~= positions.take(k as int));
            assert(positions.take(k + 1).last() == at);
        }
        if start <= at && at < len {
            let part = text.substring_char(start, at);
            let hit = text.substring_char(at, at + 1);
            if is_selected {
                marked.append(grey_bg.as_str());
                marked.append(part);
                marked.append(no_bg.as_str());
            } else {
                marked.append(part);
            }
            marked.append(blue_bg.as_str());
            marked.append(hit);
            marked.append(no_bg.as_str());
            assert(marked@ =~= before + marked_piece(text@, start as int, at as int, is_selected));
            start = at + 1;
        }
        k = k + 1;
    }
    assert(positions.take(k as int) =~= positions);
    let rest = text.substring_char(start, len);
    let mut line = String::new();
    line.append(grey_bg.as_str());
    if is_selected {
        let green = green_fg_code();
        let grey_fg = dark_grey_fg_code();
        line.append(green.as_str());
        line.append(">");
        line.append(no_fg.as_str());
        line.append(no_bg.as_str());
        line.append(grey_fg.as_str());
        line.append("  ");
        line.append(no_fg.as_str());
        line.append(marked.as_str());
        line.append(grey_bg.as_str());
        line.append(rest);
        line.append(no_bg.as_str());
    } else {
        line.append(" ");
        line.append(no_bg.as_str());
        line.append("  ");
        line.append(marked.as_str());
        line.append(rest);
    }
    assert(line@ =~= coloured_line(positions, text@, is_selected));
    line
}

/// Where every position lies in the text and they rise, none is passed
/// over: each one is marked, and the rest of the text begins right behind
/// the last of them.
pub proof fn lemma_rising_positions_are_marked(len: int, positions: Seq<usize>)
    requires
        positions_within(positions, len as nat),
        len >= 0,
    ensures
        forall|k: int|
            0 <= k < positions.len() ==> is_marked(
                len,
                cursor_after(len, #[trigger] positions.take(k)),
                positions[k],
            ),
        cursor_after(len, positions) == (if positions.len() == 0 {
            0
        } else {
            positions.last() + 1
        }),
    decreases positions.len(),
{
    if positions.len() > 0 {
        let shorter = positions.drop_last();
        let n = positions.len() as int;
        assert forall|i: int| 0 <= i < shorter.len() implies (#[trigger] shorter[i]) < len by {
            assert(shorter[i] == positions[i]);
        }
        assert forall|i: int, j: int| 0 <= i < j < shorter.len() implies (#[trigger] shorter[i]) < (
        #[trigger] shorter[j]) by {
            assert(shorter[i] == positions[i]);
            assert(shorter[j] == positions[j]);
        }
        lemma_rising_positions_are_marked(len, shorter);
        if shorter.len() > 0 {
            assert(shorter.last() == positions[n - 2]);
        }
        assert(positions.last() == positions[n - 1]);
        assert forall|k: int| 0 <= k < n implies is_marked(
            len,
            cursor_after(len, #[trigger] positions.take(k)),
            positions[k],
        ) by {
            if k < n - 1 {
                assert(positions.take(k) =~= shorter.take(k));
                assert(shorter[k] == positions[k]);
            } else {
                assert(positions.take(k) =~= shorter);
            }
        }
    }
}

} // verus!
