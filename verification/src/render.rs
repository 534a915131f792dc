//! The board as text: the glyphs of a row with a blank between them, the
//! rows one per line.

use crate::grid::{Matrix, Point};
use vstd::prelude::*;

verus! {

/// The blank that parts the glyphs of a row.
pub const CELL_SEPARATOR: char = ' ';

/// The line break that ends a row.
pub const ROW_SEPARATOR: char = '\n';

/// The parts laid end to end, with `sep` between each two neighbours.
pub open spec fn joined(parts: Seq<Seq<char>>, sep: char) -> Seq<char>
    decreases parts.len(),
{
    if parts.len() == 0 {
        Seq::empty()
    } else if parts.len() == 1 {
        parts[0]
    } else {
        joined(parts.drop_last(), sep).push(sep) + parts.last()
    }
}

/// Each glyph of the row as a text of its own.
pub open spec fn glyph_texts(row: Seq<char>) -> Seq<Seq<char>> {
    Seq::new(row.len(), |x: int| seq![row[x]])
}

/// The text of one row: its glyphs with a blank between them.
pub open spec fn row_text(row: Seq<char>) -> Seq<char> {
    joined(glyph_texts(row), CELL_SEPARATOR)
}

/// The text of each row of the grid.
pub open spec fn row_texts(cells: Seq<Seq<char>>) -> Seq<Seq<char>> {
    Seq::new(cells.len(), |y: int| row_text(cells[y]))
}

/// The text of the grid: the rows' texts with a line break between them,
/// and one more line break at the end.
pub open spec fn frame(cells: Seq<Seq<char>>) -> Seq<char> {
    joined(row_texts(cells), ROW_SEPARATOR).push(ROW_SEPARATOR)
}

/// Joining one part more: the first part stands alone, every later one
/// follows a separator.
pub proof fn lemma_joined_next(parts: Seq<Seq<char>>, sep: char, n: int)
    requires
        0 <= n < parts.len(),
    ensures
        joined(parts.take(n + 1), sep) == if n == 0 {
            parts[0]
        } else {
            joined(parts.take(n), sep).push(sep) + parts[n]
        },
{
    let longer = parts.take(n + 1);
    assert(longer.drop_last() =~= parts.take(n));
}

/// Where every part has `width` characters, the joined text has room for
/// each part and for a separator between each two neighbours.
pub proof fn lemma_joined_len(parts: Seq<Seq<char>>, sep: char, width: int)
    requires
        parts.len() > 0,
        forall|i: int| 0 <= i < parts.len() ==> (#[trigger] parts[i]).len() == width,
    ensures
        joined(parts, sep).len() == parts.len() * (width + 1) - 1,
    decreases parts.len(),
{
    let n = parts.len() as int;
    if n > 1 {
        lemma_joined_len(parts.drop_last(), sep, width);
        assert((n - 1) * (width + 1) + (width + 1) == n * (width + 1)) by (nonlinear_arith);
    }
}

/// Where every part has `width` characters, part `i` stands in the joined
/// text from offset `i * (width + 1)` on, and a separator follows every
/// part but the last: character `j` of part `i` stands at offset
/// `i * (width + 1) + j`, and at `j == width` stands the separator.
pub proof fn lemma_joined_at(parts: Seq<Seq<char>>, sep: char, width: int, i: int, j: int)
    requires
        forall|k: int| 0 <= k < parts.len() ==> (#[trigger] parts[k]).len() == width,
        0 <= i < parts.len(),
        0 <= j <= width,
        j == width ==> i < parts.len() - 1,
    ensures
        0 <= i * (width + 1) + j < joined(parts, sep).len(),
        joined(parts, sep)[i * (width + 1) + j] == if j < width {
            parts[i][j]
        } else {
            sep
        },
    decreases parts.len(),
{
    let n = parts.len() as int;
    let text = joined(parts, sep);
    lemma_joined_len(parts, sep, width);
    assert(0 <= i * (width + 1) && i * (width + 1) + (width + 1) <= n * (width + 1))
        by (nonlinear_arith)
        requires
            0 <= i < n,
            width >= 0,
    ;
    if n >= 2 {
        let shorter = parts.drop_last();
        lemma_joined_len(shorter, sep, width);
        if i < n - 2 || (i == n - 2 && j < width) {
            lemma_joined_at(shorter, sep, width, i, j);
        } else if i == n - 2 {
            assert((n - 2) * (width + 1) + (width + 1) == (n - 1) * (width + 1))
                by (nonlinear_arith);
        }
    }
}

/// The text of a row of `cols` cells, `cols` at least one, takes
/// `2 * cols - 1` characters: the glyph of cell `x` stands at offset
/// `2 * x`, and a blank after every glyph but the last.
pub proof fn lemma_row_text_layout(row: Seq<char>, x: int)
    requires
        0 <= x < row.len(),
    ensures
        row_text(row).len() == 2 * row.len() - 1,
        row_text(row)[2 * x] == row[x],
        x < row.len() - 1 ==> row_text(row)[2 * x + 1] == CELL_SEPARATOR,
{
    let parts = glyph_texts(row);
    lemma_joined_len(parts, CELL_SEPARATOR, 1);
    lemma_joined_at(parts, CELL_SEPARATOR, 1, x, 0);
    if x < row.len() - 1 {
        lemma_joined_at(parts, CELL_SEPARATOR, 1, x, 1);
    }
}

/// The text of a grid whose rows all have `cols` cells, `cols` at least
/// one, gives every row `2 * cols` characters: the glyph of the cell in
/// column `x` of row `y` stands at offset `y * (2 * cols) + 2 * x`, and
/// after it a blank, or a line break where it is the last of its row.
pub proof fn lemma_frame_layout(cells: Seq<Seq<char>>, cols: int, x: int, y: int)
    requires
        cols >= 1,
        forall|k: int| 0 <= k < cells.len() ==> (#[trigger] cells[k]).len() == cols,
        0 <= y < cells.len(),
        0 <= x < cols,
    ensures
        frame(cells).len() == cells.len() * (2 * cols),
        0 <= y * (2 * cols) + 2 * x,
        y * (2 * cols) + 2 * x + 1 < frame(cells).len(),
        frame(cells)[y * (2 * cols) + 2 * x] == cells[y][x],
        frame(cells)[y * (2 * cols) + 2 * x + 1] == if x == cols - 1 {
            ROW_SEPARATOR
        } else {
            CELL_SEPARATOR
        },
{
    let rows = cells.len() as int;
    let texts = row_texts(cells);
    let width = 2 * cols - 1;
    assert forall|k: int| 0 <= k < rows implies (#[trigger] texts[k]).len() == width by {
        lemma_row_text_layout(cells[k], 0);
    }
    lemma_row_text_layout(cells[y], x);
    lemma_joined_len(texts, ROW_SEPARATOR, width);
    lemma_joined_at(texts, ROW_SEPARATOR, width, y, 2 * x);
    if x < cols - 1 {
        lemma_joined_at(texts, ROW_SEPARATOR, width, y, 2 * x + 1);
    } else if y < rows - 1 {
        lemma_joined_at(texts, ROW_SEPARATOR, width, y, width);
    } else {
        assert((rows - 1) * (2 * cols) + 2 * cols == rows * (2 * cols)) by (nonlinear_arith);
    }
}

/// `String::push` of std appends the character to the end of the text.
pub assume_specification[ String::push ](text: &mut String, ch: char)
    ensures
        final(text)@ == old(text)@.push(ch),
;

/// Appends the text of one row of cells.
fn push_row(text: &mut String, row: &Vec<Point>)
    ensures
        final(text)@ == old(text)@ + row_text(Seq::new(row@.len(), |x: int| row@[x].display_char)),
{
    let ghost glyphs = Seq::new(row@.len(), |x: int| row@[x].display_char);
    let ghost parts = glyph_texts(glyphs);
    let ghost start = text@;
    let mut x: usize = 0;
    while x < row.len()
        invariant
            x <= row.len(),
            glyphs == Seq::new(row@.len(), |x: int| row@[x].display_char),
            parts == glyph_texts(glyphs),
            text@ == start + joined(parts.take(x as int), CELL_SEPARATOR),
        decreases row.len() - x,
    {
        proof {
            lemma_joined_next(parts, CELL_SEPARATOR, x as int);
        }
        if x > 0 {
            text.push(CELL_SEPARATOR);
        }
        text.push(row[x].display_char);
        x += 1;
    }
    proof {
        assert(parts.take(x as int) =~= parts);
    }
}

impl Matrix {
    /// The board as text, ready to be printed.
    pub fn render(&self) -> (text: String)
        ensures
            text@ == frame(self@),
    {
        let ghost parts = row_texts(self@);
        let mut text = String::new();
        let mut y: usize = 0;
        while y < self.matrix.len()
            invariant
                y <= self.matrix.len(),
                parts == row_texts(self@),
                text@ == joined(parts.take(y as int), ROW_SEPARATOR),
            decreases self.matrix.len() - y,
        {
            proof {
                lemma_joined_next(parts, ROW_SEPARATOR, y as int);
                assert(self@[y as int] =~= Seq::new(
                    self.matrix@[y as int]@.len(),
                    |x: int| self.matrix@[y as int]@[x].display_char,
                ));
            }
            if y > 0 {
                text.push(ROW_SEPARATOR);
            }
            push_row(&mut text, &self.matrix[y]);
            y += 1;
        }
        proof {
            assert(parts.take(y as int) =~= parts);
        }
        text.push(ROW_SEPARATOR);
        text
    }
}

} // verus!
