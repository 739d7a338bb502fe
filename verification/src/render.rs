//! What the terminal shows: the visible lines with the state of every
//! character, the cursor's place, and the figures of the bottom rows.

use crate::session::{classify_at, is_cursor, lemma_cursor_unique, locate, CharState};
use crate::time::minutes_seconds;
use crate::wrap::{as_ints, count_spaces_in, lemma_splits_ordered, line_start, space_count, splits};
use vstd::prelude::*;

verus! {

/// The rows at the bottom of the terminal that are kept for the figures.
pub const INFO_HEIGHT: u16 = 3;

/// One character on screen.
#[derive(Clone, Copy, Debug, PartialEq, Eq, Structural)]
pub struct Cell {
    /// The character to draw: what was typed where that is wrong, else the
    /// reference character.
    pub glyph: char,
    /// The state, which decides the colours.
    pub state: CharState,
}

/// The text part of the screen.
#[derive(Clone, Debug, PartialEq, Eq)]
pub struct Frame {
    /// The wrapped line that the first row shows.
    pub first_line: usize,
    /// The rows from the top, each a line of the wrap.
    pub rows: Vec<Vec<Cell>>,
    /// The cursor's column.
    pub cursor_x: u16,
    /// The cursor's row.
    pub cursor_y: u16,
}

/// The figures of the bottom rows.
#[derive(Clone, Copy, Debug, PartialEq, Eq, Structural)]
pub struct Footer {
    /// Characters typed so far.
    pub chars_typed: usize,
    /// Characters of the text.
    pub chars_total: usize,
    /// Spaces typed so far.
    pub words_typed: usize,
    /// Words of the text: its spaces and one.
    pub words_total: usize,
    /// Whole minutes on the stopwatch.
    pub minutes: u64,
    /// Seconds beyond the whole minutes.
    pub seconds: u64,
}

/// The rows that are left for the text in a terminal of `height` rows.
pub open spec fn visible_rows(height: u16) -> int {
    if height >= INFO_HEIGHT {
        height - INFO_HEIGHT
    } else {
        0
    }
}

/// The first line shown. A text that fits is shown from its start; one that
/// does not is shown from the line before the cursor's.
pub open spec fn first_visible(line_count: int, cursor_line: int, rows: int) -> int {
    if line_count > rows && cursor_line >= 1 {
        cursor_line - 1
    } else {
        0
    }
}

/// How many lines are shown from line `first` on.
pub open spec fn shown_count(line_count: int, first: int, rows: int) -> int {
    if line_count - first < rows {
        line_count - first
    } else {
        rows
    }
}

/// What is drawn for position `g` of the text.
pub open spec fn cell_at(text: Seq<char>, typed: Seq<char>, g: int) -> Cell {
    match classify_at(text, typed, g) {
        CharState::Incorrect(c) => Cell { glyph: c, state: CharState::Incorrect(c) },
        state => Cell { glyph: text[g], state },
    }
}

/// The cells of one wrapped line.
pub open spec fn row_spec(text: Seq<char>, typed: Seq<char>, ends: Seq<int>, line: int) -> Seq<
    Cell,
> {
    Seq::new(
        (ends[line] - line_start(ends, line)) as nat,
        |x: int| cell_at(text, typed, line_start(ends, line) + x),
    )
}

/// The cells of `count` lines from line `first` on.
pub open spec fn rows_spec(
    text: Seq<char>,
    typed: Seq<char>,
    ends: Seq<int>,
    first: int,
    count: int,
) -> Seq<Seq<Cell>> {
    Seq::new(count as nat, |r: int| row_spec(text, typed, ends, first + r))
}

/// The cells of each row.
pub open spec fn row_views(rows: Seq<Vec<Cell>>) -> Seq<Seq<Cell>> {
    rows.map_values(|row: Vec<Cell>| row@)
}

/// A column or row number as the terminal takes it: the largest one that it
/// can address stands for all beyond.
pub open spec fn clamp_spec(v: int) -> u16 {
    if v > u16::MAX {
        u16::MAX
    } else {
        v as u16
    }
}

/// `frame` shows a session with this text, these typed characters and
/// these line ends, on a terminal of `height` rows, with the cursor on line
/// `line` at column `column`.
pub open spec fn shows_with_cursor(
    frame: Frame,
    text: Seq<char>,
    typed: Seq<char>,
    ends: Seq<int>,
    height: u16,
    line: int,
    column: int,
    complete: bool,
) -> bool {
    let rows = visible_rows(height);
    let first = first_visible(ends.len() as int, line, rows);
    let count = shown_count(ends.len() as int, first, rows);
    &&& frame.first_line == first
    &&& row_views(frame.rows@) == rows_spec(text, typed, ends, first, count)
    &&& if !complete && first <= line < first + count {
        frame.cursor_x == clamp_spec(column) && frame.cursor_y == line - first
    } else {
        frame.cursor_x == 0 && frame.cursor_y == 0
    }
}

/// `frame` shows the session. Each visible line is a row, and each cell
/// carries the state of its character. While the text is incomplete the
/// cursor stands on the first untyped character if its line is visible;
/// otherwise it is at the top left. A complete text scrolls as if the
/// cursor were on its last line.
pub open spec fn shows(
    frame: Frame,
    text: Seq<char>,
    typed: Seq<char>,
    ends: Seq<int>,
    height: u16,
) -> bool {
    if typed.len() == text.len() {
        shows_with_cursor(frame, text, typed, ends, height, ends.len() - 1, 0, true)
    } else {
        forall|line: int, column: int| #[trigger]
            is_cursor(ends, typed.len() as int, line, column) ==> shows_with_cursor(
                frame,
                text,
                typed,
                ends,
                height,
                line,
                column,
                false,
            )
    }
}

/// The figures of the bottom rows after `secs` seconds.
pub open spec fn footer_spec(text: Seq<char>, typed: Seq<char>, secs: u64) -> Footer {
    Footer {
        chars_typed: typed.len() as usize,
        chars_total: text.len() as usize,
        words_typed: space_count(typed) as usize,
        words_total: (space_count(text) + 1) as usize,
        minutes: secs / 60,
        seconds: secs % 60,
    }
}

/// The figures of the bottom rows after `secs` seconds.
pub fn footer(text: &Vec<char>, typed: &Vec<char>, secs: u64) -> (figures: Footer)
    requires
        text.len() < usize::MAX,
    ensures
        figures == footer_spec(text@, typed@, secs),
{
    let clock = minutes_seconds(secs);
    assert(text@.take(text.len() as int) =~= text@);
    assert(typed@.take(typed.len() as int) =~= typed@);
    let words_typed = count_spaces_in(typed, typed.len());
    let spaces = count_spaces_in(text, text.len());
    proof {
        crate::wrap::lemma_space_count_bound(text@);
    }
    Footer {
        chars_typed: typed.len(),
        chars_total: text.len(),
        words_typed,
        words_total: spaces + 1,
        minutes: clock.0,
        seconds: clock.1,
    }
}

/// A number as the terminal takes it, see `clamp_spec`.
pub fn clamp_u16(v: usize) -> (c: u16)
    ensures
        c == clamp_spec(v as int),
{
    if v > 65535 {
        65535
    } else {
        v as u16
    }
}

/// The cells of the wrapped line that runs from offset `from` to `to`.
pub fn render_row(text: &Vec<char>, typed: &Vec<char>, from: usize, to: usize) -> (row: Vec<Cell>)
    requires
        from <= to <= text.len(),
    ensures
        row@ == Seq::new((to - from) as nat, |x: int| cell_at(text@, typed@, from + x)),
{
    let mut row: Vec<Cell> = Vec::new();
    let mut g: usize = from;
    while g < to
        invariant
            from <= g <= to <= text.len(),
            row@ == Seq::new((g - from) as nat, |x: int| cell_at(text@, typed@, from + x)),
        decreases to - g,
    {
        let cell = if g < typed.len() {
            if typed[g] == text[g] {
                Cell { glyph: text[g], state: CharState::Correct }
            } else {
                Cell { glyph: typed[g], state: CharState::Incorrect(typed[g]) }
            }
        } else {
            Cell { glyph: text[g], state: CharState::Untyped }
        };
        assert(cell == cell_at(text@, typed@, g as int));
        row.push(cell);
        g += 1;
        assert(row@ =~= Seq::new((g - from) as nat, |x: int| cell_at(text@, typed@, from + x)));
    }
    row
}

/// The text part of the screen for a terminal of `height` rows, where
/// `ends` holds the end offset of every wrapped line of `text`.
pub fn render_frame(text: &Vec<char>, typed: &Vec<char>, ends: &Vec<usize>, height: u16) -> (frame:
    Frame)
    requires
        splits(as_ints(ends@), text.len() as int),
        typed.len() <= text.len(),
    ensures
        shows(frame, text@, typed@, as_ints(ends@), height),
{
    let ghost cuts = as_ints(ends@);
    let cursor = locate(ends, typed.len());
    let line_count = ends.len();
    let rows: usize = if height >= INFO_HEIGHT {
        (height - INFO_HEIGHT) as usize
    } else {
        0
    };
    let cursor_line = match cursor {
        Some((line, _)) => line,
        None => line_count - 1,
    };
    let first = if line_count > rows && cursor_line >= 1 {
        cursor_line - 1
    } else {
        0
    };
    let count = if line_count - first < rows {
        line_count - first
    } else {
        rows
    };
    let mut shown: Vec<Vec<Cell>> = Vec::new();
    let mut r: usize = 0;
    while r < count
        invariant
            cuts == as_ints(ends@),
            splits(cuts, text.len() as int),
            r <= count,
            first + count <= ends.len(),
            row_views(shown@) == rows_spec(text@, typed@, cuts, first as int, r as int),
        decreases count - r,
    {
        let line = first + r;
        proof {
            lemma_splits_ordered(cuts, text.len() as int, line as int);
        }
        let from = if line == 0 {
            0
        } else {
            ends[line - 1]
        };
        let to = ends[line];
        assert(cuts[line as int] == to as int);
        assert(from as int == line_start(cuts, line as int));
        let row = render_row(text, typed, from, to);
        assert(row@ =~= row_spec(text@, typed@, cuts, line as int));
        let ghost before = shown@;
        shown.push(row);
        assert(row_views(before.push(row)) =~= row_views(before).push(row@));
        r += 1;
        assert(row_views(shown@) =~= rows_spec(text@, typed@, cuts, first as int, r as int));
    }
    let (cursor_x, cursor_y) = match cursor {
        Some((line, column)) => {
            if first <= line && line - first < count {
                (clamp_u16(column), clamp_u16(line - first))
            } else {
                (0, 0)
            }
        },
        None => (0, 0),
    };
    let frame = Frame { first_line: first, rows: shown, cursor_x, cursor_y };
    proof {
        if typed@.len() != text@.len() {
            let (l0, c0) = cursor.unwrap();
            assert forall|line: int, column: int| #[trigger]
                is_cursor(cuts, typed@.len() as int, line, column) implies shows_with_cursor(
                frame,
                text@,
                typed@,
                cuts,
                height,
                line,
                column,
                false,
            ) by {
                lemma_cursor_unique(
                    cuts,
                    text.len() as int,
                    typed@.len() as int,
                    line,
                    column,
                    l0 as int,
                    c0 as int,
                );
            }
        }
    }
    frame
}

} // verus!
