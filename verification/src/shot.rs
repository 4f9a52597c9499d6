//! A single shot: where it is, whether it is exploding, and the countdown
//! that ends it.

use crate::frame::{put, Drawable, Frame};
use crate::timer::Countdown;
use vstd::prelude::*;

verus! {

/// How long a shot stays in flight, in milliseconds.
pub const FLIGHT_MILLIS: u64 = 1000;

/// How long an explosion is shown, in milliseconds.
pub const BLAST_MILLIS: u64 = 250;

/// The glyph of a shot in flight.
pub const SHOT_GLYPH: char = '|';

/// The glyph of an exploding shot.
pub const BLAST_GLYPH: char = '*';

/// A shot.
#[derive(Clone, Copy, Debug, PartialEq, Eq, Structural)]
pub struct Shot {
    /// The column.
    pub x: usize,
    /// The row, counted from the top.
    pub y: usize,
    /// Whether the shot has hit and is exploding.
    pub exploding: bool,
    /// The countdown of the shot's present phase: its flight or, once it
    /// has hit, its explosion.
    pub timer: Countdown,
}

impl Shot {
    /// A shot on column `x`, row `y`, at the start of its flight.
    pub open spec fn launched(x: usize, y: usize) -> Shot {
        Shot { x, y, exploding: false, timer: Countdown::fresh(FLIGHT_MILLIS) }
    }

    /// The shot after `delta` nanoseconds have passed.
    pub open spec fn aged(self, delta: u64) -> Shot {
        Shot { timer: self.timer.ticked(delta), ..self }
    }

    /// The shot at the start of its explosion.
    pub open spec fn exploded(self) -> Shot {
        Shot { exploding: true, timer: Countdown::fresh(BLAST_MILLIS), ..self }
    }

    /// Whether the countdown of the present phase has run out.
    pub open spec fn is_dead(self) -> bool {
        self.timer.ready
    }

    /// The glyph that shows the shot.
    pub open spec fn glyph(self) -> char {
        if self.exploding {
            BLAST_GLYPH
        } else {
            SHOT_GLYPH
        }
    }

    /// A shot on column `x`, row `y`, at the start of its flight.
    pub fn new(x: usize, y: usize) -> (shot: Shot)
        ensures
            shot == Shot::launched(x, y),
    {
        Shot { x, y, exploding: false, timer: Countdown::from_millis(FLIGHT_MILLIS) }
    }

    /// Lets `delta` nanoseconds pass.
    pub fn update(&mut self, delta: u64)
        ensures
            *final(self) == old(self).aged(delta),
    {
        self.timer.update(delta);
    }

    /// Turns the shot into an explosion and starts the explosion's
    /// countdown.
    pub fn explode(&mut self)
        ensures
            *final(self) == old(self).exploded(),
    {
        self.exploding = true;
        self.timer = Countdown::from_millis(BLAST_MILLIS);
    }

    /// Whether the shot is over: the countdown of its present phase has run
    /// out.
    pub fn dead(&self) -> (dead: bool)
        ensures
            dead == self.is_dead(),
    {
        self.timer.ready
    }
}

impl Drawable for Shot {
    /// The shot's cell lies inside the field.
    open spec fn fits(&self, cols: usize, rows: usize) -> bool {
        self.x < cols && self.y < rows
    }

    /// The shot's glyph on its cell.
    open spec fn drawn(&self, cells: Seq<Seq<char>>) -> Seq<Seq<char>> {
        put(cells, self.x as int, self.y as int, self.glyph())
    }

    fn draw(&self, frame: &mut Frame) {
        if self.exploding {
            frame.set(self.x, self.y, BLAST_GLYPH);
        } else {
            frame.set(self.x, self.y, SHOT_GLYPH);
        }
    }
}

} // verus!
