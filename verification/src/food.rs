//! The food: one cell of the board, placed at random.

use rand::rngs::ThreadRng;
use rand::Rng;
use vstd::prelude::*;

verus! {

/// The glyph that marks the food on the board.
pub const FOOD_GLYPH: char = '*';

/// `rand::rngs::ThreadRng`, the handle to the thread-local generator.
/// Nothing is known of what it holds.
#[verifier::external_type_specification]
#[verifier::external_body]
pub struct ExThreadRng(rand::rngs::ThreadRng);

/// Calls `rand::thread_rng`, which hands out the thread's generator.
/// Nothing is claimed of the handle. The call takes no argument; it fails
/// only where the system has no entropy to seed the generator with.
#[verifier::external_body]
fn thread_rng() -> ThreadRng {
    rand::thread_rng()
}

/// Calls `rand::Rng::gen_range` on the half-open range `min..max`.
/// The call panics on an empty range, so `min < max` is asked for. The
/// number drawn lies in the range; which one it is depends on chance, and
/// nothing is claimed of that.
#[verifier::external_body]
fn gen_range(rng: &mut ThreadRng, min: usize, max: usize) -> (drawn: usize)
    requires
        min < max,
    ensures
        min <= drawn < max,
{
    rng.gen_range(min..max)
}

/// A piece of food and the cell it lies on.
#[derive(Clone, Copy, Debug, PartialEq, Eq, Structural)]
pub struct Food {
    pub display_char: char,
    pub x: usize,
    pub y: usize,
}

impl Food {
    /// Both coordinates lie in `min..max`, and the glyph is the food's.
    pub open spec fn within(self, min: int, max: int) -> bool {
        &&& self.display_char == FOOD_GLYPH
        &&& min <= self.x < max
        &&& min <= self.y < max
    }

    /// Food at a random cell whose coordinates both lie in `min..max`. The
    /// cell is drawn afresh at every call, and cells on which the snake
    /// lies are not left out.
    pub fn new(max: usize, min: usize) -> (food: Food)
        requires
            min < max,
        ensures
            food.within(min as int, max as int),
    {
        let mut rng = thread_rng();
        let x: usize = gen_range(&mut rng, min, max);
        let y: usize = gen_range(&mut rng, min, max);
        Food { display_char: FOOD_GLYPH, x, y }
    }
}

} // verus!
