//! The snake: a sequence of segments, head first, that moves as a shift
//! register.

use crate::food::Food;
use crate::grid::{lemma_painted_empty, lemma_painted_push, painted, Matrix, EMPTY_GLYPH};
use vstd::prelude::*;

verus! {

/// The glyph that marks a segment of the snake on the board.
pub const SNAKE_GLYPH: char = '#';

/// One segment of the snake: the cell it lies on and the step it takes
/// next.
#[derive(Clone, Copy, Debug, PartialEq, Eq, Structural)]
pub struct SnakePiece {
    pub display_char: char,
    pub x: isize,
    pub y: isize,
    pub dx: isize,
    pub dy: isize,
}

/// A segment as the contracts see it, with unbounded coordinates.
pub ghost struct Segment {
    pub glyph: char,
    pub x: int,
    pub y: int,
    pub dx: int,
    pub dy: int,
}

/// The steps a segment may take: none, or one cell along one axis.
pub open spec fn unit_delta(dx: int, dy: int) -> bool {
    ||| dx == 0 && dy == 0
    ||| dx == -1 && dy == 0
    ||| dx == 1 && dy == 0
    ||| dx == 0 && dy == -1
    ||| dx == 0 && dy == 1
}

impl Segment {
    /// The segment carries the snake's glyph and takes a step of at most
    /// one cell.
    pub open spec fn valid(self) -> bool {
        self.glyph == SNAKE_GLYPH && unit_delta(self.dx, self.dy)
    }

    /// The segment lies on the cell in column `x` of row `y`.
    pub open spec fn at(self, x: int, y: int) -> bool {
        self.x == x && self.y == y
    }

    /// Every field fits the machine's signed word.
    pub open spec fn fits(self) -> bool {
        &&& isize::MIN <= self.x <= isize::MAX
        &&& isize::MIN <= self.y <= isize::MAX
        &&& isize::MIN <= self.dx <= isize::MAX
        &&& isize::MIN <= self.dy <= isize::MAX
    }

    /// The segment after it has taken its step.
    pub open spec fn stepped(self) -> Segment {
        Segment { x: self.x + self.dx, y: self.y + self.dy, ..self }
    }

    /// A fresh segment one step behind this one, with the same heading.
    pub open spec fn behind(self) -> Segment {
        Segment {
            glyph: SNAKE_GLYPH,
            x: self.x - self.dx,
            y: self.y - self.dy,
            dx: self.dx,
            dy: self.dy,
        }
    }
}

impl View for SnakePiece {
    type V = Segment;

    open spec fn view(&self) -> Segment {
        Segment {
            glyph: self.display_char,
            x: self.x as int,
            y: self.y as int,
            dx: self.dx as int,
            dy: self.dy as int,
        }
    }
}

impl SnakePiece {
    /// Whether the segment carries the snake's glyph and takes a step of
    /// at most one cell.
    pub fn is_valid(&self) -> (ok: bool)
        ensures
            ok == self@.valid(),
    {
        self.display_char == SNAKE_GLYPH && ((self.dx == 0 && (self.dy == -1 || self.dy == 0
            || self.dy == 1)) || (self.dy == 0 && (self.dx == -1 || self.dx == 1)))
    }
}

/// The step that a direction key stands for, if it is one.
pub open spec fn heading(dir: char) -> Option<(int, int)> {
    if dir == 'w' {
        Some((0int, -1int))
    } else if dir == 'a' {
        Some((-1int, 0int))
    } else if dir == 's' {
        Some((0int, 1int))
    } else if dir == 'd' {
        Some((1int, 0int))
    } else {
        None
    }
}

/// The body after the head has been told to go `dir`: a direction key
/// sets the head's step, any other character changes nothing.
pub open spec fn turned(body: Seq<Segment>, dir: char) -> Seq<Segment> {
    match heading(dir) {
        Some((dx, dy)) => body.update(0, Segment { dx, dy, ..body[0] }),
        None => body,
    }
}

/// The body with one more segment, one step behind the tail.
pub open spec fn grown(body: Seq<Segment>) -> Seq<Segment> {
    body.push(body.last().behind())
}

/// The body one move later: the head has taken its step, and every other
/// segment has taken the cell and the step that the one before it had.
pub open spec fn moved(body: Seq<Segment>) -> Seq<Segment> {
    Seq::new(
        body.len(),
        |i: int|
            if i == 0 {
                body[0].stepped()
            } else {
                Segment { glyph: body[i].glyph, ..body[i - 1] }
            },
    )
}

/// Some segment of the body lies on the cell in column `x` of row `y`.
pub open spec fn occupies(body: Seq<Segment>, x: int, y: int) -> bool {
    exists|k: int| 0 <= k < body.len() && #[trigger] body[k].at(x, y)
}

/// The head of the body lies on the food.
pub open spec fn eats(body: Seq<Segment>, food: Food) -> bool {
    body[0].at(food.x as int, food.y as int)
}

/// Growing adds exactly one segment and leaves the others as they were.
/// The new segment has the tail's step and lies one such step behind the
/// tail: the step would take it onto the tail's cell.
pub proof fn lemma_grown_adds_one(body: Seq<Segment>)
    requires
        body.len() > 0,
    ensures
        grown(body).len() == body.len() + 1,
        forall|i: int| 0 <= i < body.len() ==> grown(body)[i] == body[i],
        grown(body).last().x == body.last().x - body.last().dx,
        grown(body).last().y == body.last().y - body.last().dy,
        grown(body).last().dx == body.last().dx,
        grown(body).last().dy == body.last().dy,
        grown(body).last().stepped().at(body.last().x, body.last().y),
        body.last().valid() ==> grown(body).last().valid(),
{
}

/// A move keeps the number of segments, takes the head on by its own
/// step, and hands every other segment the cell and the step that the one
/// before it had.
pub proof fn lemma_moved_shifts(body: Seq<Segment>)
    requires
        body.len() > 0,
    ensures
        moved(body).len() == body.len(),
        moved(body)[0].x == body[0].x + body[0].dx,
        moved(body)[0].y == body[0].y + body[0].dy,
        moved(body)[0].dx == body[0].dx,
        moved(body)[0].dy == body[0].dy,
        forall|i: int|
            1 <= i < body.len() ==> (#[trigger] moved(body)[i]).x == body[i - 1].x && moved(
                body,
            )[i].y == body[i - 1].y && moved(body)[i].dx == body[i - 1].dx && moved(body)[i].dy
                == body[i - 1].dy,
{
}

/// The snake, head first.
pub struct Snake {
    pub snake_body: Vec<SnakePiece>,
}

impl View for Snake {
    type V = Seq<Segment>;

    open spec fn view(&self) -> Seq<Segment> {
        Seq::new(self.snake_body@.len(), |i: int| self.snake_body@[i]@)
    }
}

impl Snake {
    /// The snake has a head, and every segment is valid.
    pub open spec fn wf(&self) -> bool {
        &&& self@.len() > 0
        &&& forall|i: int| 0 <= i < self@.len() ==> (#[trigger] self@[i]).valid()
    }

    /// Whether the snake has a head and every segment is valid.
    pub fn is_wf(&self) -> (ok: bool)
        ensures
            ok == self.wf(),
    {
        if self.snake_body.len() == 0 {
            return false;
        }
        let mut i: usize = 0;
        while i < self.snake_body.len()
            invariant
                i <= self.snake_body.len(),
                forall|k: int| 0 <= k < i ==> (#[trigger] self@[k]).valid(),
            decreases self.snake_body.len() - i,
        {
            if !self.snake_body[i].is_valid() {
                assert(!self@[i as int].valid());
                return false;
            }
            i += 1;
        }
        true
    }

    /// A snake of one segment on the cell `(x, y)`, at rest.
    pub fn new(x: isize, y: isize) -> (snake: Snake)
        ensures
            snake.wf(),
            snake@ == seq![Segment { glyph: SNAKE_GLYPH, x: x as int, y: y as int, dx: 0, dy: 0 }],
    {
        Snake { snake_body: vec![SnakePiece { display_char: SNAKE_GLYPH, x, y, dx: 0, dy: 0 }] }
    }

    /// Moves the snake by one step: the head goes on by its own step, and
    /// every other segment takes the cell and the step that the one before
    /// it had. The cells that the snake lay on are emptied on the board, as
    /// far as the board has them.
    pub fn update(&mut self, board: &mut Matrix)
        requires
            old(self).wf(),
            old(self)@[0].stepped().fits(),
        ensures
            final(self).wf(),
            final(self)@ == moved(old(self)@),
            final(board).food == old(board).food,
            final(board).size == old(board).size,
            final(board)@ == painted(old(board)@, old(self)@, EMPTY_GLYPH),
            old(board).wf() ==> final(board).wf(),
    {
        let ghost body = self@;
        let ghost cells = board@;
        let head = &mut self.snake_body[0];
        let mut prev: SnakePiece = *head;
        head.x += head.dx;
        head.y += head.dy;
        if board.holds(prev.x, prev.y) {
            board.convert_back(prev.x as usize, prev.y as usize);
        }
        proof {
            lemma_painted_empty(cells, EMPTY_GLYPH);
            lemma_painted_push(cells, Seq::<Segment>::empty(), body[0], EMPTY_GLYPH);
            assert(Seq::<Segment>::empty().push(body[0]) =~= body.take(1));
        }
        let mut i: usize = 1;
        while i < self.snake_body.len()
            invariant
                1 <= i <= self.snake_body.len(),
                self@.len() == body.len(),
                forall|k: int| 0 <= k < body.len() ==> (#[trigger] body[k]).valid(),
                forall|k: int| 0 <= k < i ==> #[trigger] self@[k] == moved(body)[k],
                forall|k: int| i <= k < body.len() ==> #[trigger] self@[k] == body[k],
                prev@ == body[i - 1],
                board.food == old(board).food,
                board.size == old(board).size,
                board@ == painted(cells, body.take(i as int), EMPTY_GLYPH),
            decreases self.snake_body.len() - i,
        {
            let ghost so_far = self@;
            let cur: SnakePiece = self.snake_body[i];
            let next = &mut self.snake_body[i];
            next.x = prev.x;
            next.y = prev.y;
            next.dx = prev.dx;
            next.dy = prev.dy;
            proof {
                assert(cur@ == so_far[i as int]);
                assert forall|k: int| 0 <= k < i + 1 implies #[trigger] self@[k] == moved(
                    body,
                )[k] by {
                    if k < i {
                        assert(so_far[k] == moved(body)[k]);
                    }
                }
                assert forall|k: int| i + 1 <= k < body.len() implies #[trigger] self@[k]
                    == body[k] by {
                    assert(so_far[k] == body[k]);
                }
                lemma_painted_push(cells, body.take(i as int), body[i as int], EMPTY_GLYPH);
                assert(body.take(i as int).push(body[i as int]) =~= body.take(i as int + 1));
            }
            if board.holds(cur.x, cur.y) {
                board.convert_back(cur.x as usize, cur.y as usize);
            }
            prev = cur;
            i += 1;
        }
        proof {
            assert(body.take(i as int) =~= body);
        }
    }

    /// Sets the head's step from a direction key: `w` up, `a` left, `s`
    /// down, `d` right. Any other character leaves the snake as it is.
    pub fn move_around(&mut self, dir: char)
        requires
            old(self).wf(),
        ensures
            final(self).wf(),
            final(self)@ == turned(old(self)@, dir),
    {
        let head = &mut self.snake_body[0];
        match dir {
            'w' => {
                head.dx = 0;
                head.dy = -1;
            },
            'a' => {
                head.dx = -1;
                head.dy = 0;
            },
            's' => {
                head.dx = 0;
                head.dy = 1;
            },
            'd' => {
                head.dx = 1;
                head.dy = 0;
            },
            _ => {},
        }
        proof {
            let before = old(self)@;
            assert forall|i: int| 0 <= i < self@.len() implies (#[trigger] self@[i]).valid() by {
                assert(before[i].valid());
            }
        }
    }

    /// Whether the head lies on the food. The food is left as it is.
    pub fn collision(&self, food: &mut Food) -> (ate: bool)
        requires
            self.wf(),
        ensures
            ate == eats(self@, *old(food)),
            *final(food) == *old(food),
    {
        let head = &self.snake_body[0];
        head.x >= 0 && head.y >= 0 && head.x as usize == food.x && head.y as usize == food.y
    }

    /// Appends a segment one step behind the tail, with the tail's step.
    pub fn extend(&mut self)
        requires
            old(self).wf(),
            old(self)@.last().behind().fits(),
        ensures
            final(self).wf(),
            final(self)@ == grown(old(self)@),
    {
        let end: &SnakePiece = &self.snake_body[self.snake_body.len() - 1];
        let new_snake: SnakePiece = SnakePiece {
            display_char: SNAKE_GLYPH,
            x: end.x - end.dx,
            y: end.y - end.dy,
            dx: end.dx,
            dy: end.dy,
        };
        self.snake_body.push(new_snake);
        proof {
            let before = old(self)@;
            assert forall|i: int| 0 <= i < self@.len() implies (#[trigger] self@[i]).valid() by {
                if i < before.len() {
                    assert(before[i].valid());
                }
            }
        }
    }
}

} // verus!
