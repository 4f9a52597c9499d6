//! One game: what a command and what a tick do to the player and the
//! invaders, and what the caller is to play and show afterwards.
//!
//! The caller owns the loop. It reads the keyboard and hands over commands,
//! measures the time and hands over ticks, plays the cues that come back
//! and shows the frame. It stops when it is told that the game is over.

use crate::frame::{blank_cells, Drawable, Field, Frame};
use crate::invaders::{Invaders, Swarm};
use crate::player::{Player, Ship};
use vstd::prelude::*;

verus! {

/// What the player can ask for.
#[derive(Clone, Copy, Debug, PartialEq, Eq, Structural)]
pub enum Command {
    /// Move the ship one column to the left.
    MoveLeft,
    /// Move the ship one column to the right.
    MoveRight,
    /// Fire a shot.
    Fire,
    /// Give up.
    Quit,
}

/// A sound that the caller is to play.
#[derive(Clone, Copy, Debug, PartialEq, Eq, Structural)]
pub enum Cue {
    /// The game begins.
    Startup,
    /// The player has fired a shot.
    ShotFired,
    /// A shot has hit an invader.
    Hit,
    /// The formation has moved.
    MoveTick,
    /// The last invader is gone.
    Victory,
    /// The player has lost or given up.
    DefeatPlayer,
}

/// How the game stands after a tick.
#[derive(Clone, Copy, Debug, PartialEq, Eq, Structural)]
pub enum Outcome {
    /// The game goes on.
    Running,
    /// No invader is left: the player has won.
    Victory,
    /// An invader has reached the bottom row: the player has lost.
    Defeat,
}

/// What a command led to.
#[derive(Clone, Copy, Debug, PartialEq, Eq, Structural)]
pub struct Reply {
    /// The sound to play, if any.
    pub cue: Option<Cue>,
    /// Whether the game is over.
    pub over: bool,
}

/// What a tick led to.
pub struct Tick {
    /// The sounds to play, in this order.
    pub cues: Vec<Cue>,
    /// How the game stands.
    pub outcome: Outcome,
    /// The frame to show, while the game goes on.
    pub frame: Option<Frame>,
}

/// A game as a mathematical value.
#[verifier::ext_equal]
pub struct World {
    /// The player.
    pub ship: Ship,
    /// The invaders.
    pub swarm: Swarm,
}

impl World {
    /// The game is valid: player and invaders are, in one and the same
    /// field.
    pub open spec fn wf(self) -> bool {
        &&& self.ship.wf()
        &&& self.swarm.wf()
        &&& self.ship.cols == self.swarm.cols
        &&& self.ship.rows == self.swarm.rows
    }

    /// The game after a command.
    pub open spec fn after_command(self, command: Command) -> World {
        match command {
            Command::MoveLeft => World { ship: self.ship.moved_left(), ..self },
            Command::MoveRight => World { ship: self.ship.moved_right(), ..self },
            Command::Fire => World { ship: self.ship.fired(), ..self },
            Command::Quit => self,
        }
    }

    /// What a command leads to: a shot that is fired is heard, and giving
    /// up ends the game with the sound of defeat.
    pub open spec fn reply(self, command: Command) -> Reply {
        match command {
            Command::Fire => Reply {
                cue: if self.ship.can_fire() {
                    Some(Cue::ShotFired)
                } else {
                    None
                },
                over: false,
            },
            Command::Quit => Reply { cue: Some(Cue::DefeatPlayer), over: true },
            _ => Reply { cue: None, over: false },
        }
    }

    /// The invaders after the shots of a tick of `delta` nanoseconds have
    /// been checked against them: the shots age first, then they hit.
    pub open spec fn thinned(self, delta: u64) -> Swarm {
        self.ship.aged(delta).survivors(self.swarm)
    }

    /// Whether a shot hits in a tick of `delta` nanoseconds.
    pub open spec fn hit_in(self, delta: u64) -> bool {
        self.ship.aged(delta).hits(self.swarm)
    }

    /// Whether the formation's timer fires in a tick of `delta`
    /// nanoseconds. It is not asked once the last invader is gone.
    pub open spec fn moved_in(self, delta: u64) -> bool {
        !self.thinned(delta).defeated() && self.thinned(delta).fires(delta)
    }

    /// The game after a tick of `delta` nanoseconds: the shots age and
    /// those that are over go, the shots are checked against the invaders,
    /// and then, unless none is left, the invaders take their step.
    pub open spec fn after_tick(self, delta: u64) -> World {
        World {
            ship: self.ship.aged(delta).after_clash(self.swarm),
            swarm: if self.thinned(delta).defeated() {
                self.thinned(delta)
            } else {
                self.thinned(delta).step(delta)
            },
        }
    }

    /// How the game stands after a tick of `delta` nanoseconds.
    pub open spec fn outcome(self, delta: u64) -> Outcome {
        if self.thinned(delta).defeated() {
            Outcome::Victory
        } else if self.after_tick(delta).swarm.landed() {
            Outcome::Defeat
        } else {
            Outcome::Running
        }
    }

    /// The sounds of a tick of `delta` nanoseconds, in their order: a hit,
    /// then either victory or, if the formation moved, its move, and at the
    /// end defeat.
    pub open spec fn cues(self, delta: u64) -> Seq<Cue> {
        let hit = if self.hit_in(delta) {
            seq![Cue::Hit]
        } else {
            Seq::empty()
        };
        let moved = if self.moved_in(delta) {
            seq![Cue::MoveTick]
        } else {
            Seq::empty()
        };
        match self.outcome(delta) {
            Outcome::Victory => hit + seq![Cue::Victory],
            Outcome::Defeat => hit + moved + seq![Cue::DefeatPlayer],
            Outcome::Running => hit + moved,
        }
    }

    /// What there is to see: the player and then the invaders, drawn into
    /// a blank frame.
    pub open spec fn picture(self) -> Seq<Seq<char>> {
        self.swarm.drawn(self.ship.drawn(blank_cells(self.ship.cols, self.ship.rows)))
    }
}

/// A game: the player and the invaders.
pub struct Game {
    field: Field,
    player: Player,
    invaders: Invaders,
}

impl View for Game {
    type V = World;

    closed spec fn view(&self) -> World {
        World { ship: self.player@, swarm: self.invaders@ }
    }
}

impl Game {
    /// The game is valid; see [`World::wf`].
    pub closed spec fn wf(&self) -> bool {
        &&& self@.wf()
        &&& self.field.cols() == self@.ship.cols
        &&& self.field.rows() == self@.ship.rows
    }

    /// A new game in the standard field.
    pub fn new() -> (game: Game)
        ensures
            game.wf(),
            game@.ship == Ship::start(crate::NUM_COLS, crate::NUM_ROWS),
            game@.swarm == Swarm::start(crate::NUM_COLS, crate::NUM_ROWS),
    {
        Game::in_field(Field::standard())
    }

    /// A new game in `field`.
    pub fn in_field(field: Field) -> (game: Game)
        ensures
            game.wf(),
            game@.ship == Ship::start(field.cols(), field.rows()),
            game@.swarm == Swarm::start(field.cols(), field.rows()),
    {
        Game { field, player: Player::in_field(field), invaders: Invaders::in_field(field) }
    }

    /// A game of the given player and invaders. There is none if the two
    /// are not in fields of one size.
    pub fn assemble(player: Player, invaders: Invaders) -> (game: Option<Game>)
        requires
            player.wf(),
            invaders.wf(),
        ensures
            game is Some <==> player@.cols == invaders@.cols && player@.rows == invaders@.rows,
            game matches Some(g) ==> g.wf() && g@ == (World { ship: player@, swarm: invaders@ }),
    {
        let field = player.field();
        let other = invaders.field();
        if field.cols() == other.cols() && field.rows() == other.rows() {
            Some(Game { field, player, invaders })
        } else {
            None
        }
    }

    /// The player.
    pub fn player(&self) -> (player: &Player)
        ensures
            player@ == self@.ship,
    {
        &self.player
    }

    /// The invaders.
    pub fn invaders(&self) -> (invaders: &Invaders)
        ensures
            invaders@ == self@.swarm,
    {
        &self.invaders
    }

    /// Carries out a command of the player.
    pub fn command(&mut self, command: Command) -> (reply: Reply)
        requires
            old(self).wf(),
        ensures
            final(self).wf(),
            final(self)@ == old(self)@.after_command(command),
            reply == old(self)@.reply(command),
    {
        match command {
            Command::MoveLeft => {
                self.player.move_left();
                Reply { cue: None, over: false }
            },
            Command::MoveRight => {
                self.player.move_right();
                Reply { cue: None, over: false }
            },
            Command::Fire => {
                if self.player.shoot() {
                    Reply { cue: Some(Cue::ShotFired), over: false }
                } else {
                    Reply { cue: None, over: false }
                }
            },
            Command::Quit => Reply { cue: Some(Cue::DefeatPlayer), over: true },
        }
    }

    /// Lets `delta` nanoseconds pass.
    ///
    /// The shots age, the shots are checked against the invaders, and the
    /// invaders take their step. The game is won when no invader is left
    /// after the check and lost when one has reached the bottom row after
    /// the step; otherwise it goes on and the tick brings the frame to
    /// show. While the game goes on it stays valid.
    pub fn tick(&mut self, delta: u64) -> (tick: Tick)
        requires
            old(self).wf(),
        ensures
            final(self)@ == old(self)@.after_tick(delta),
            tick.outcome == old(self)@.outcome(delta),
            tick.cues@ == old(self)@.cues(delta),
            tick.outcome == Outcome::Running <==> tick.frame is Some,
            tick.frame matches Some(frame) ==> frame.wf() && frame.field().cols() == old(self)@.ship.cols
                && frame.field().rows() == old(self)@.ship.rows && frame@ == final(self)@.picture(),
            tick.outcome != Outcome::Defeat ==> final(self).wf(),
    {
        let mut cues: Vec<Cue> = Vec::new();
        self.player.update(delta);
        if self.player.detect_hit(&mut self.invaders) {
            cues.push(Cue::Hit);
        }
        if self.invaders.all_killed() {
            cues.push(Cue::Victory);
            return Tick { cues, outcome: Outcome::Victory, frame: None };
        }
        if self.invaders.update(delta) {
            cues.push(Cue::MoveTick);
        }
        if self.invaders.reached_bottom() {
            cues.push(Cue::DefeatPlayer);
            return Tick { cues, outcome: Outcome::Defeat, frame: None };
        }
        let mut frame = Frame::blank(self.field);
        self.player.draw(&mut frame);
        self.invaders.draw(&mut frame);
        Tick { cues, outcome: Outcome::Running, frame: Some(frame) }
    }
}

} // verus!
