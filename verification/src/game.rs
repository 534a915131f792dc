//! The rules of one tick: what a key does, when the snake eats and grows,
//! how it moves, when the game ends and what the board shows afterwards.

use crate::food::{Food, FOOD_GLYPH};
use crate::grid::{blank, is_cell, off_board, painted, put, Matrix, EMPTY_GLYPH};
use crate::render::{frame, lemma_frame_layout};
use crate::snake::{eats, grown, heading, moved, occupies, turned, Segment, Snake, SNAKE_GLYPH};
use vstd::prelude::*;

verus! {

/// The side of the board that a game starts on.
pub const GRID_SIZE: usize = 15;

/// The column of the cell that the snake starts on.
pub const START_X: isize = 2;

/// The row of the cell that the snake starts on.
pub const START_Y: isize = 2;

/// How many ticks a second has.
pub const TICKS_PER_SECOND: u64 = 5;

/// How many milliseconds a tick waits for a key.
pub const TICK_MILLIS: u64 = 1000 / TICKS_PER_SECOND;

/// What the keyboard handed in: a character key, the escape key, or any
/// other key.
#[derive(Clone, Copy, Debug, PartialEq, Eq, Structural)]
pub enum Key {
    Char(char),
    Esc,
    Other,
}

/// Why a game has ended.
#[derive(Clone, Copy, Debug, PartialEq, Eq, Structural)]
pub enum Reason {
    EdgeCollision,
    UserQuit,
}

/// Whether the game goes on.
#[derive(Clone, Copy, Debug, PartialEq, Eq, Structural)]
pub enum State {
    Running,
    Terminated(Reason),
}

/// The game as the contracts see it: the side of the board, its glyphs,
/// the food and the body of the snake.
pub ghost struct Game {
    pub size: int,
    pub cells: Seq<Seq<char>>,
    pub food: Food,
    pub body: Seq<Segment>,
}

/// The key ends the game.
pub open spec fn quits(key: Option<Key>) -> bool {
    key == Some(Key::Esc)
}

/// The key neither turns the snake nor ends the game: there was none, or
/// it was not one of the four direction keys.
pub open spec fn idle(key: Option<Key>) -> bool {
    match key {
        None => true,
        Some(Key::Other) => true,
        Some(Key::Char(dir)) => heading(dir) is None,
        Some(Key::Esc) => false,
    }
}

/// The body after the key has been obeyed.
pub open spec fn steered(body: Seq<Segment>, key: Option<Key>) -> Seq<Segment> {
    match key {
        Some(Key::Char(dir)) => turned(body, dir),
        _ => body,
    }
}

/// The body after the meal, if there is one: it grows where its head lies
/// on the food.
pub open spec fn fed(body: Seq<Segment>, food: Food) -> Seq<Segment> {
    if eats(body, food) {
        grown(body)
    } else {
        body
    }
}

/// The glyph that the cell `(x, y)` shows once food and snake are drawn:
/// the snake's where a segment lies on it, else the food's where the food
/// lies on it, else the empty one.
pub open spec fn glyph_at(body: Seq<Segment>, food: Food, x: int, y: int) -> char {
    if occupies(body, x, y) {
        SNAKE_GLYPH
    } else if food.x == x && food.y == y {
        FOOD_GLYPH
    } else {
        EMPTY_GLYPH
    }
}

/// The cells of the grid that are not empty.
pub open spec fn marked(cells: Seq<Seq<char>>) -> Set<(int, int)> {
    Set::new(|p: (int, int)| is_cell(cells, p.0, p.1) && cells[p.1][p.0] != EMPTY_GLYPH)
}

/// The cells that the body lies on.
pub open spec fn positions(body: Seq<Segment>) -> Set<(int, int)> {
    Set::new(|p: (int, int)| occupies(body, p.0, p.1))
}

impl Game {
    /// The board is a square of side `size`, the food lies on it with its
    /// own glyph, and the snake has a head, valid segments, and lies on
    /// the board with all of them.
    pub open spec fn playable(self) -> bool {
        &&& self.cells.len() == self.size
        &&& forall|y: int| 0 <= y < self.size ==> (#[trigger] self.cells[y]).len() == self.size
        &&& self.food.within(0, self.size)
        &&& self.body.len() > 0
        &&& forall|k: int| 0 <= k < self.body.len() ==> (#[trigger] self.body[k]).valid()
        &&& forall|k: int|
            0 <= k < self.body.len() ==> !off_board(
                self.size,
                (#[trigger] self.body[k]).x,
                self.body[k].y,
            )
    }

    /// No glyph is left over: every cell that is not empty lies under the
    /// snake or under the food.
    pub open spec fn tidy(self) -> bool {
        forall|x: int, y: int|
            is_cell(self.cells, x, y) && #[trigger] self.cells[y][x] != EMPTY_GLYPH ==> occupies(
                self.body,
                x,
                y,
            ) || (self.food.x == x && self.food.y == y)
    }

    /// Every cell shows what lies on it.
    pub open spec fn shows(self) -> bool {
        forall|x: int, y: int|
            is_cell(self.cells, x, y) ==> #[trigger] self.cells[y][x] == glyph_at(
                self.body,
                self.food,
                x,
                y,
            )
    }

    /// The game one tick later, and whether it goes on, where `fresh` is
    /// the food that is laid out if the snake eats.
    ///
    /// The escape key ends the game and changes nothing. Otherwise the key
    /// is obeyed, the snake eats and grows if its head lies on the food,
    /// it moves, and the cells it lay on are emptied. If the head has left
    /// the board the game ends there; else food and snake are drawn.
    pub open spec fn ticked(self, key: Option<Key>, fresh: Food) -> (Game, State) {
        if quits(key) {
            (self, State::Terminated(Reason::UserQuit))
        } else {
            let turned = steered(self.body, key);
            let food = if eats(turned, self.food) {
                fresh
            } else {
                self.food
            };
            let longer = fed(turned, self.food);
            let body = moved(longer);
            let swept = painted(self.cells, longer, EMPTY_GLYPH);
            if off_board(self.size, body[0].x, body[0].y) {
                (
                    Game { cells: swept, food, body, ..self },
                    State::Terminated(Reason::EdgeCollision),
                )
            } else {
                let drawn = painted(
                    put(swept, food.x as int, food.y as int, food.display_char),
                    body,
                    SNAKE_GLYPH,
                );
                (Game { cells: drawn, food, body, ..self }, State::Running)
            }
        }
    }
}

/// Obeying a key leaves every segment on its cell, and the segments
/// valid.
pub proof fn lemma_steered_keeps_cells(body: Seq<Segment>, key: Option<Key>)
    requires
        body.len() > 0,
    ensures
        steered(body, key).len() == body.len(),
        forall|k: int|
            0 <= k < body.len() ==> (#[trigger] steered(body, key)[k]).x == body[k].x && steered(
                body,
                key,
            )[k].y == body[k].y,
        forall|k: int|
            0 <= k < body.len() && body[k].valid() ==> (#[trigger] steered(body, key)[k]).valid(),
        idle(key) ==> steered(body, key) == body,
{
}

impl Game {
    /// The escape key, and nothing else, ends the game at the player's
    /// wish. Any other tick ends the game exactly when the head, after its
    /// move, has left the board: one step beyond an edge is enough, and no
    /// cell of the board will do.
    pub proof fn lemma_ticked_state(self, key: Option<Key>, fresh: Food)
        requires
            self.playable(),
        ensures
            ({
                let (after, next) = self.ticked(key, fresh);
                let head = after.body[0];
                &&& next == State::Terminated(Reason::UserQuit) <==> quits(key)
                &&& quits(key) ==> after == self
                &&& !quits(key) ==> head == steered(self.body, key)[0].stepped()
                &&& next == State::Terminated(Reason::EdgeCollision) <==> !quits(key) && off_board(
                    self.size,
                    head.x,
                    head.y,
                )
                &&& next == State::Running <==> !quits(key) && 0 <= head.x < self.size && 0
                    <= head.y < self.size
            }),
    {
        lemma_steered_keeps_cells(self.body, key);
    }

    /// A game that goes on after a tick can be played on: the snake lies
    /// on the board again with every segment, the one it may have grown
    /// too.
    pub proof fn lemma_ticked_playable(self, key: Option<Key>, fresh: Food)
        requires
            self.playable(),
            fresh.within(0, self.size),
            self.ticked(key, fresh).1 == State::Running,
        ensures
            self.ticked(key, fresh).0.playable(),
    {
        let after = self.ticked(key, fresh).0;
        let longer = fed(steered(self.body, key), self.food);
        lemma_steered_keeps_cells(self.body, key);
        assert forall|k: int| 0 <= k < after.body.len() implies (#[trigger] after.body[k]).valid()
            && !off_board(self.size, after.body[k].x, after.body[k].y) by {
            if k > 0 {
                assert(longer[k].valid());
            }
        }
    }

    /// A tick that does not end at the player's wish feeds the snake
    /// exactly when its head lies on the food: the snake is one segment
    /// longer afterwards and the fresh food has taken the place of the old.
    /// Otherwise the snake keeps its length and the food stays.
    pub proof fn lemma_ticked_eats(self, key: Option<Key>, fresh: Food)
        requires
            self.playable(),
            !quits(key),
        ensures
            ({
                let after = self.ticked(key, fresh).0;
                if eats(self.body, self.food) {
                    after.body.len() == self.body.len() + 1 && after.food == fresh
                } else {
                    after.body.len() == self.body.len() && after.food == self.food
                }
            }),
    {
        lemma_steered_keeps_cells(self.body, key);
    }

    /// A tick in which no key turns the snake and the snake does not eat
    /// moves the head by its own step, and every other segment to the
    /// cell that the one before it lay on.
    pub proof fn lemma_ticked_moves(self, key: Option<Key>, fresh: Food)
        requires
            self.playable(),
            idle(key),
            !eats(self.body, self.food),
        ensures
            ({
                let after = self.ticked(key, fresh).0;
                &&& after.body.len() == self.body.len()
                &&& after.body[0].x == self.body[0].x + self.body[0].dx
                &&& after.body[0].y == self.body[0].y + self.body[0].dy
                &&& forall|i: int|
                    1 <= i < self.body.len() ==> (#[trigger] after.body[i]).x == self.body[i - 1].x
                        && after.body[i].y == self.body[i - 1].y
            }),
    {
        lemma_steered_keeps_cells(self.body, key);
    }

    /// A tick after which the game goes on leaves a playable game whose
    /// board shows exactly the snake and the food: the cells that are not
    /// empty are the cells of the snake and the cell of the food.
    pub proof fn lemma_ticked_shows(self, key: Option<Key>, fresh: Food)
        requires
            self.playable(),
            self.tidy(),
            fresh.within(0, self.size),
            self.ticked(key, fresh).1 == State::Running,
        ensures
            ({
                let after = self.ticked(key, fresh).0;
                &&& after.playable()
                &&& after.shows()
                &&& after.tidy()
                &&& marked(after.cells) == positions(after.body).insert(
                    (after.food.x as int, after.food.y as int),
                )
            }),
    {
        let after = self.ticked(key, fresh).0;
        let longer = fed(steered(self.body, key), self.food);
        lemma_steered_keeps_cells(self.body, key);
        self.lemma_ticked_playable(key, fresh);
        assert forall|x: int, y: int| is_cell(after.cells, x, y) implies (
        #[trigger] after.cells[y][x]) == glyph_at(after.body, after.food, x, y) by {
            if occupies(self.body, x, y) {
                let k = choose|k: int| 0 <= k < self.body.len() && #[trigger] self.body[k].at(x, y);
                assert(longer[k].at(x, y));
            }
        }
        assert forall|p: (int, int)|
            marked(after.cells).contains(p) <==> #[trigger] positions(after.body).insert(
                (after.food.x as int, after.food.y as int),
            ).contains(p) by {
            if occupies(after.body, p.0, p.1) {
                let k = choose|k: int|
                    0 <= k < after.body.len() && #[trigger] after.body[k].at(p.0, p.1);
            }
        }
        assert(marked(after.cells) =~= positions(after.body).insert(
            (after.food.x as int, after.food.y as int),
        ));
    }
}

impl Game {
    /// The text of a playable game whose board shows what lies on it has,
    /// for the cell in column `x` of row `y`, the glyph of what lies there
    /// at offset `y * (2 * size) + 2 * x`.
    pub proof fn lemma_frame_shows(self, x: int, y: int)
        requires
            self.playable(),
            self.shows(),
            0 <= x < self.size,
            0 <= y < self.size,
        ensures
            frame(self.cells).len() == self.size * (2 * self.size),
            0 <= y * (2 * self.size) + 2 * x < frame(self.cells).len(),
            frame(self.cells)[y * (2 * self.size) + 2 * x] == glyph_at(self.body, self.food, x, y),
    {
        lemma_frame_layout(self.cells, self.size, x, y);
        assert(self.cells[y][x] == glyph_at(self.body, self.food, x, y));
    }
}

impl Reason {
    /// The words that close a game which ended for this reason, where it
    /// has any.
    pub fn farewell(&self) -> (words: Option<&'static str>)
        ensures
            *self == Reason::UserQuit ==> words is None,
            *self == Reason::EdgeCollision ==> words is Some && words->0@
                == "Snake went out of bounds... Better luck next time.. "@,
    {
        match self {
            Reason::EdgeCollision => Some("Snake went out of bounds... Better luck next time.. "),
            Reason::UserQuit => None,
        }
    }
}

/// A board of the starting size with nothing drawn on it yet, and a snake
/// of one segment at rest on the starting cell.
pub fn new_game() -> (start: (Matrix, Snake))
    ensures
        start.0.playable(&start.1),
        start.0.game(&start.1).tidy(),
        start.0.size == GRID_SIZE,
        start.0@ == blank(GRID_SIZE as nat, GRID_SIZE as nat),
        start.1@ == seq![
            Segment { glyph: SNAKE_GLYPH, x: START_X as int, y: START_Y as int, dx: 0, dy: 0 },
        ],
{
    let board = Matrix::new(GRID_SIZE, GRID_SIZE);
    let player = Snake::new(START_X, START_Y);
    (board, player)
}

impl Matrix {
    /// The game that this board and this snake make up.
    pub open spec fn game(&self, player: &Snake) -> Game {
        Game { size: self.size as int, cells: self@, food: self.food, body: player@ }
    }

    /// A tick can be played: board and snake are well formed, and the
    /// snake lies on the board with every segment.
    pub open spec fn playable(&self, player: &Snake) -> bool {
        &&& self.wf()
        &&& player.wf()
        &&& self.covers(player@)
    }

    /// Whether a tick can be played on this board with this snake.
    pub fn is_playable(&self, player: &Snake) -> (ok: bool)
        ensures
            ok == self.playable(player),
    {
        self.is_wf() && player.is_wf() && self.is_covering(player)
    }

    /// A board and a snake that can be played make up a playable game.
    pub proof fn lemma_playable_game(&self, player: &Snake)
        requires
            self.playable(player),
        ensures
            self.game(player).playable(),
    {
    }

    /// One tick of the game, with `fresh` as the food that is laid out if
    /// the snake eats.
    pub fn step(&mut self, player: &mut Snake, key: Option<Key>, fresh: Food) -> (next: State)
        requires
            old(self).playable(old(player)),
            fresh.within(0, old(self).size as int),
        ensures
            (final(self).game(final(player)), next) == old(self).game(old(player)).ticked(
                key,
                fresh,
            ),
            next == State::Running ==> final(self).playable(final(player)),
            next == State::Running && old(self).game(old(player)).tidy() ==> final(self).game(
                final(player),
            ).shows(),
    {
        let ghost before = self.game(player);
        proof {
            self.lemma_playable_game(player);
            if before.ticked(key, fresh).1 == State::Running && before.tidy() {
                before.lemma_ticked_shows(key, fresh);
            }
        }
        match key {
            Some(Key::Char(dir)) => {
                player.move_around(dir);
            },
            Some(Key::Esc) => {
                return State::Terminated(Reason::UserQuit);
            },
            _ => {},
        }
        if player.collision(&mut self.food) {
            self.food = fresh;
            player.extend();
        }
        player.update(self);
        if self.edge_collision(player) {
            return State::Terminated(Reason::EdgeCollision);
        }
        self.draw_food();
        self.draw_snake(player);
        State::Running
    }

    /// One tick of the game. Where the snake eats, new food is laid out at
    /// a random cell of the board: the tick is the step taken with the
    /// food that the board holds afterwards.
    pub fn tick(&mut self, player: &mut Snake, key: Option<Key>) -> (next: State)
        requires
            old(self).playable(old(player)),
        ensures
            final(self).food.within(0, old(self).size as int),
            (final(self).game(final(player)), next) == old(self).game(old(player)).ticked(
                key,
                final(self).food,
            ),
            next == State::Running ==> final(self).playable(final(player)),
            next == State::Running && old(self).game(old(player)).tidy() ==> final(self).game(
                final(player),
            ).shows(),
    {
        let quit: bool = match key {
            Some(Key::Esc) => true,
            _ => false,
        };
        let fresh: Food = if !quit && player.collision(&mut self.food) {
            Food::new(self.size, 0)
        } else {
            self.food
        };
        proof {
            lemma_steered_keeps_cells(player@, key);
        }
        self.step(player, key, fresh)
    }
}

} // verus!
