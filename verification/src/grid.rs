//! The board: a grid of glyphs that holds the food.

use crate::food::{Food, FOOD_GLYPH};
use crate::snake::{occupies, Segment, Snake, SNAKE_GLYPH};
use vstd::prelude::*;

verus! {

/// The glyph of a cell on which nothing lies.
pub const EMPTY_GLYPH: char = '.';

/// A grid of `rows` rows and `cols` columns on which nothing lies.
pub open spec fn blank(rows: nat, cols: nat) -> Seq<Seq<char>> {
    Seq::new(rows, |y: int| Seq::new(cols, |x: int| EMPTY_GLYPH))
}

/// Column `x` of row `y` is a cell of the grid.
pub open spec fn is_cell(cells: Seq<Seq<char>>, x: int, y: int) -> bool {
    0 <= y < cells.len() && 0 <= x < cells[y].len()
}

/// The grid with `glyph` on the cell in column `x` of row `y`. Where the
/// grid has no such cell it stays as it is.
pub open spec fn put(cells: Seq<Seq<char>>, x: int, y: int, glyph: char) -> Seq<Seq<char>> {
    if is_cell(cells, x, y) {
        cells.update(y, cells[y].update(x, glyph))
    } else {
        cells
    }
}

/// The grid with `glyph` on every cell on which a segment of `body` lies.
pub open spec fn painted(
    cells: Seq<Seq<char>>,
    body: Seq<Segment>,
    glyph: char,
) -> Seq<Seq<char>> {
    Seq::new(
        cells.len(),
        |y: int|
            Seq::new(
                cells[y].len(),
                |x: int|
                    if occupies(body, x, y) {
                        glyph
                    } else {
                        cells[y][x]
                    },
            ),
    )
}

/// The point `(x, y)` lies outside a square board of the given size.
pub open spec fn off_board(size: int, x: int, y: int) -> bool {
    !(0 <= x < size && 0 <= y < size)
}

/// One step beyond any edge of the board lies outside it, and every point
/// whose coordinates both lie in `0..size` lies on it.
pub proof fn lemma_off_board_edges(size: int, x: int, y: int)
    ensures
        off_board(size, -1, y),
        off_board(size, size, y),
        off_board(size, x, -1),
        off_board(size, x, size),
        0 <= x < size && 0 <= y < size ==> !off_board(size, x, y),
{
}

/// A body with one more segment lies on the cells of the shorter body and
/// on the cell of the new segment.
pub proof fn lemma_occupies_push(body: Seq<Segment>, seg: Segment, x: int, y: int)
    ensures
        occupies(body.push(seg), x, y) <==> occupies(body, x, y) || seg.at(x, y),
{
    let longer = body.push(seg);
    if occupies(body, x, y) {
        let k = choose|k: int| 0 <= k < body.len() && #[trigger] body[k].at(x, y);
        assert(longer[k].at(x, y));
    }
    if seg.at(x, y) {
        assert(longer[body.len() as int].at(x, y));
    }
    if occupies(longer, x, y) {
        let k = choose|k: int| 0 <= k < longer.len() && #[trigger] longer[k].at(x, y);
        if k < body.len() {
            assert(body[k].at(x, y));
        }
    }
}

/// Painting a body with one more segment is painting the shorter body and
/// putting the glyph on the cell of the new segment.
pub proof fn lemma_painted_push(
    cells: Seq<Seq<char>>,
    body: Seq<Segment>,
    seg: Segment,
    glyph: char,
)
    ensures
        painted(cells, body.push(seg), glyph) == put(
            painted(cells, body, glyph),
            seg.x,
            seg.y,
            glyph,
        ),
{
    let left = painted(cells, body.push(seg), glyph);
    let right = put(painted(cells, body, glyph), seg.x, seg.y, glyph);
    assert forall|y: int| 0 <= y < left.len() implies #[trigger] left[y] == right[y] by {
        assert forall|x: int| 0 <= x < left[y].len() implies #[trigger] left[y][x]
            == right[y][x] by {
            lemma_occupies_push(body, seg, x, y);
        }
    }
}

/// Painting no segment leaves the grid as it is.
pub proof fn lemma_painted_empty(cells: Seq<Seq<char>>, glyph: char)
    ensures
        painted(cells, Seq::<Segment>::empty(), glyph) == cells,
{
    assert(painted(cells, Seq::<Segment>::empty(), glyph) =~~= cells);
}

/// One cell of the board.
#[derive(Clone, Copy, Debug, PartialEq, Eq, Structural)]
pub struct Point {
    pub display_char: char,
}

impl Point {
    /// A cell that shows `display_char`.
    pub fn new(display_char: char) -> (point: Point)
        ensures
            point.display_char == display_char,
    {
        Point { display_char }
    }
}

/// The board: its cells, its size and the food on it.
pub struct Matrix {
    pub food: Food,
    pub size: usize,
    pub matrix: Vec<Vec<Point>>,
}

impl View for Matrix {
    type V = Seq<Seq<char>>;

    /// The glyphs of the board, row by row: `self@[y][x]` is the glyph of
    /// the cell in column `x` of row `y`.
    open spec fn view(&self) -> Seq<Seq<char>> {
        Seq::new(
            self.matrix@.len(),
            |y: int| Seq::new(self.matrix@[y]@.len(), |x: int| self.matrix@[y]@[x].display_char),
        )
    }
}

impl Matrix {
    /// The board is a square of `size` rows and `size` columns, small
    /// enough for signed coordinates, and the food lies on it.
    pub open spec fn wf(&self) -> bool {
        &&& self.size <= isize::MAX
        &&& self@.len() == self.size
        &&& forall|y: int| 0 <= y < self.size ==> (#[trigger] self@[y]).len() == self.size
        &&& self.food.within(0, self.size as int)
    }

    /// Every segment of the body lies on a cell of the board.
    pub open spec fn covers(&self, body: Seq<Segment>) -> bool {
        forall|k: int| 0 <= k < body.len() ==> is_cell(self@, (#[trigger] body[k]).x, body[k].y)
    }

    /// Whether the board is well formed.
    pub fn is_wf(&self) -> (ok: bool)
        ensures
            ok == self.wf(),
    {
        if self.size > isize::MAX as usize || self.matrix.len() != self.size {
            return false;
        }
        let mut y: usize = 0;
        while y < self.matrix.len()
            invariant
                y <= self.matrix.len(),
                self.matrix.len() == self.size,
                forall|j: int| 0 <= j < y ==> (#[trigger] self@[j]).len() == self.size,
            decreases self.matrix.len() - y,
        {
            if self.matrix[y].len() != self.size {
                assert(self@[y as int].len() != self.size);
                return false;
            }
            y += 1;
        }
        self.food.display_char == FOOD_GLYPH && self.food.x < self.size && self.food.y < self.size
    }

    /// Whether every segment of the snake lies on a cell of the board.
    pub fn is_covering(&self, player: &Snake) -> (ok: bool)
        ensures
            ok == self.covers(player@),
    {
        let mut i: usize = 0;
        while i < player.snake_body.len()
            invariant
                i <= player.snake_body.len(),
                forall|k: int|
                    0 <= k < i ==> is_cell(self@, (#[trigger] player@[k]).x, player@[k].y),
            decreases player.snake_body.len() - i,
        {
            let piece = &player.snake_body[i];
            if !self.holds(piece.x, piece.y) {
                assert(!is_cell(self@, player@[i as int].x, player@[i as int].y));
                return false;
            }
            i += 1;
        }
        true
    }

    /// A board of `row` rows and `col` columns on which nothing lies yet,
    /// with food at a random cell of the square of size `row`.
    pub fn new(row: usize, col: usize) -> (board: Matrix)
        requires
            row > 0,
        ensures
            board.size == row,
            board@ == blank(row as nat, col as nat),
            board.food.within(0, row as int),
            board.wf() <==> row == col && row <= isize::MAX,
    {
        let mut matrix: Vec<Vec<Point>> = Vec::new();
        let mut y: usize = 0;
        while y < row
            invariant
                y <= row,
                matrix@.len() == y,
                forall|j: int| 0 <= j < y ==> (#[trigger] matrix@[j])@.len() == col,
                forall|j: int, i: int|
                    0 <= j < y && 0 <= i < col ==> (#[trigger] matrix@[j]@[i]).display_char
                        == EMPTY_GLYPH,
            decreases row - y,
        {
            let mut cells: Vec<Point> = Vec::new();
            let mut x: usize = 0;
            while x < col
                invariant
                    x <= col,
                    cells@.len() == x,
                    forall|i: int|
                        0 <= i < x ==> (#[trigger] cells@[i]).display_char == EMPTY_GLYPH,
                decreases col - x,
            {
                let new_point = Point::new(EMPTY_GLYPH);
                cells.push(new_point);
                x += 1;
            }
            matrix.push(cells);
            y += 1;
        }
        let board = Matrix { matrix, food: Food::new(row, 0), size: row };
        proof {
            assert(board@ =~~= blank(row as nat, col as nat));
            if board.wf() {
                assert(board@[0].len() == col);
            }
        }
        board
    }

    /// Whether the point `(x, y)` is a cell of the board.
    pub fn holds(&self, x: isize, y: isize) -> (inside: bool)
        ensures
            inside == is_cell(self@, x as int, y as int),
    {
        y >= 0 && (y as usize) < self.matrix.len() && x >= 0 && (x as usize)
            < self.matrix[y as usize].len()
    }

    /// The cell in column `x` of row `y`, to be written.
    pub fn get_point(&mut self, x: usize, y: usize) -> (point: &mut Point)
        requires
            is_cell(old(self)@, x as int, y as int),
        ensures
            point.display_char == old(self)@[y as int][x as int],
            final(self).food == old(self).food,
            final(self).size == old(self).size,
            final(self)@ =~~= put(old(self)@, x as int, y as int, final(point).display_char),
    {
        let matrix = self.matrix.as_mut_slice();
        &mut matrix[y][x]
    }

    /// Empties the cell in column `x` of row `y`.
    pub fn convert_back(&mut self, x: usize, y: usize)
        requires
            is_cell(old(self)@, x as int, y as int),
        ensures
            final(self).food == old(self).food,
            final(self).size == old(self).size,
            final(self)@ == put(old(self)@, x as int, y as int, EMPTY_GLYPH),
            old(self).wf() ==> final(self).wf(),
    {
        let point = self.get_point(x, y);
        point.display_char = EMPTY_GLYPH;
    }

    /// Writes the glyph of every segment of the snake into its cell.
    pub fn draw_snake(&mut self, player: &Snake)
        requires
            player.wf(),
            old(self).covers(player@),
        ensures
            final(self).food == old(self).food,
            final(self).size == old(self).size,
            final(self)@ == painted(old(self)@, player@, SNAKE_GLYPH),
            old(self).wf() ==> final(self).wf(),
    {
        let ghost body = player@;
        let ghost cells = self@;
        let mut i: usize = 0;
        proof {
            lemma_painted_empty(cells, SNAKE_GLYPH);
            assert(body.take(0) =~= Seq::<Segment>::empty());
        }
        while i < player.snake_body.len()
            invariant
                i <= player.snake_body.len(),
                body == player@,
                player.wf(),
                forall|k: int|
                    0 <= k < body.len() ==> is_cell(cells, (#[trigger] body[k]).x, body[k].y),
                self.food == old(self).food,
                self.size == old(self).size,
                self@ == painted(cells, body.take(i as int), SNAKE_GLYPH),
            decreases player.snake_body.len() - i,
        {
            let piece = &player.snake_body[i];
            proof {
                lemma_painted_push(cells, body.take(i as int), body[i as int], SNAKE_GLYPH);
                assert(body.take(i as int).push(body[i as int]) =~= body.take(i as int + 1));
            }
            let point = self.get_point(piece.x as usize, piece.y as usize);
            point.display_char = piece.display_char;
            i += 1;
        }
        proof {
            assert(body.take(i as int) =~= body);
        }
    }

    /// Writes the food's glyph into the food's cell.
    pub fn draw_food(&mut self)
        requires
            is_cell(old(self)@, old(self).food.x as int, old(self).food.y as int),
        ensures
            final(self).food == old(self).food,
            final(self).size == old(self).size,
            final(self)@ == put(
                old(self)@,
                old(self).food.x as int,
                old(self).food.y as int,
                old(self).food.display_char,
            ),
            old(self).wf() ==> final(self).wf(),
    {
        let glyph: char = self.food.display_char;
        let x: usize = self.food.x;
        let y: usize = self.food.y;
        let point = self.get_point(x, y);
        point.display_char = glyph;
    }

    /// Whether the head of the snake has left the board. The board is
    /// left as it is.
    pub fn edge_collision(&mut self, player: &Snake) -> (hit: bool)
        requires
            player.wf(),
        ensures
            *final(self) == *old(self),
            hit == off_board(old(self).size as int, player@[0].x, player@[0].y),
    {
        let head = &player.snake_body[0];
        if head.x < 0 || head.x as usize >= self.size || head.y < 0 || head.y as usize
            >= self.size {
            return true;
        }
        false
    }
}

} // verus!
