//! A fixed-timestep arcade simulation on a character grid: a player ship at
//! the bottom row defends against a formation of invaders that sweeps from
//! side to side, drops one row at every edge and speeds up as it does.
//!
//! The crate holds the simulation itself: the formation's movement rules,
//! shots and their collisions, the frame buffer and the computation of what
//! has to be redrawn between two frames. Every function states its effect
//! in a contract. Keyboard, sound and the terminal are left to the caller.

use vstd::prelude::*;

pub mod frame;
pub mod game;
pub mod invaders;
pub mod player;
pub mod render;
pub mod seq_facts;
pub mod shot;
pub mod text;
pub mod timer;

verus! {

/// Height of the standard play field, in rows.
pub const NUM_ROWS: usize = 20;

/// Width of the standard play field, in columns.
pub const NUM_COLS: usize = 40;

} // verus!
