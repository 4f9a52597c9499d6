//! The player's ship: how it moves along the bottom row, fires, and hits.

use crate::frame::{put, Drawable, Field, Frame};
use crate::invaders::{lemma_kill_removes_one, off_cell, stands_on, Invader, Invaders, Swarm};
use crate::seq_facts::{
    lemma_filter_keeps_all, lemma_filter_members, lemma_filter_no_duplicates, lemma_filter_same,
    lemma_filter_twice,
};
use crate::shot::Shot;
use vstd::prelude::*;

verus! {

/// The most shots that a player can have at one time.
pub const MAX_SHOTS: usize = 2;

/// The glyph of the player's ship.
pub const PLAYER_GLYPH: char = 'A';

/// The shot `delta` nanoseconds older.
pub open spec fn shot_aged(delta: u64) -> spec_fn(Shot) -> Shot {
    |s: Shot| s.aged(delta)
}

/// The predicate "is not over yet".
pub open spec fn shot_alive() -> spec_fn(Shot) -> bool {
    |s: Shot| !s.is_dead()
}

/// Draws one shot.
pub open spec fn shot_stamp() -> spec_fn(Seq<Seq<char>>, Shot) -> Seq<Seq<char>> {
    |cells: Seq<Seq<char>>, s: Shot| put(cells, s.x as int, s.y as int, s.glyph())
}

/// Whether one of `shots` is in column `x`, row `y` and still in flight.
pub open spec fn live_on(shots: Seq<Shot>, x: int, y: int) -> bool {
    exists|k: int| 0 <= k < shots.len() && !(#[trigger] shots[k]).exploding && shots[k].x == x && shots[k].y == y
}

/// The predicate "no shot in flight is on this invader's cell".
pub open spec fn spared_by(shots: Seq<Shot>) -> spec_fn(Invader) -> bool {
    |e: Invader| !live_on(shots, e.x as int, e.y as int)
}

/// Whether shot `j` of `shots` hits a member of `army`: it is in flight, a
/// member stands on its cell, and no earlier shot in flight is on the same
/// cell, which would have taken that member first.
pub open spec fn strikes(shots: Seq<Shot>, army: Seq<Invader>, j: int) -> bool {
    &&& !shots[j].exploding
    &&& stands_on(army, shots[j].x as int, shots[j].y as int)
    &&& !live_on(shots.take(j), shots[j].x as int, shots[j].y as int)
}

/// The player as a mathematical value.
#[verifier::ext_equal]
pub struct Ship {
    /// The width of the field.
    pub cols: usize,
    /// The height of the field.
    pub rows: usize,
    /// The ship's column.
    pub x: usize,
    /// The ship's row.
    pub y: usize,
    /// The shots that the player has, oldest first.
    pub shots: Seq<Shot>,
}

impl Ship {
    /// The player is valid: the ship stands in the bottom row of a field of
    /// at least one column and two rows, and there are at most `MAX_SHOTS`
    /// shots, all inside the field.
    pub open spec fn wf(self) -> bool {
        &&& self.cols >= 1
        &&& self.rows >= 2
        &&& self.x < self.cols
        &&& self.y + 1 == self.rows
        &&& self.shots.len() <= MAX_SHOTS
        &&& forall|i: int|
            0 <= i < self.shots.len() ==> (#[trigger] self.shots[i]).x < self.cols && self.shots[i].y
                < self.rows
    }

    /// The player at the start of a game in a field of `cols` by `rows`:
    /// in the middle of the bottom row, without shots.
    pub open spec fn start(cols: usize, rows: usize) -> Ship {
        Ship { cols, rows, x: cols / 2, y: (rows - 1) as usize, shots: Seq::empty() }
    }

    /// One column to the left, unless the ship is in column 0.
    pub open spec fn moved_left(self) -> Ship {
        if self.x > 0 {
            Ship { x: (self.x - 1) as usize, ..self }
        } else {
            self
        }
    }

    /// One column to the right, unless the ship is in the last column.
    pub open spec fn moved_right(self) -> Ship {
        if self.x + 1 < self.cols {
            Ship { x: (self.x + 1) as usize, ..self }
        } else {
            self
        }
    }

    /// Whether the player may fire: fewer than `MAX_SHOTS` shots are there.
    pub open spec fn can_fire(self) -> bool {
        self.shots.len() < MAX_SHOTS
    }

    /// The player after pulling the trigger: with a new shot one row above
    /// the ship if the player may fire, and unchanged otherwise.
    pub open spec fn fired(self) -> Ship {
        if self.can_fire() {
            Ship { shots: self.shots.push(Shot::launched(self.x, (self.y - 1) as usize)), ..self }
        } else {
            self
        }
    }

    /// The player after `delta` nanoseconds: every shot is that much older,
    /// and those that are over are gone.
    pub open spec fn aged(self, delta: u64) -> Ship {
        Ship { shots: self.shots.map_values(shot_aged(delta)).filter(shot_alive()), ..self }
    }

    /// The cells `cells` with the player drawn over them: the ship's glyph
    /// on its cell, and then the shots' glyphs one after the other, each on
    /// its cell.
    pub open spec fn drawn(self, cells: Seq<Seq<char>>) -> Seq<Seq<char>> {
        self.shots.fold_left(put(cells, self.x as int, self.y as int, PLAYER_GLYPH), shot_stamp())
    }

    /// Whether some shot hits a member of `swarm`.
    pub open spec fn hits(self, swarm: Swarm) -> bool {
        exists|j: int| 0 <= j < self.shots.len() && #[trigger] strikes(self.shots, swarm.army, j)
    }

    /// The player after the shots have been checked against `swarm`: each
    /// shot that hits is exploding, the others are as before.
    pub open spec fn after_clash(self, swarm: Swarm) -> Ship {
        Ship {
            shots: Seq::new(
                self.shots.len(),
                |j: int|
                    if strikes(self.shots, swarm.army, j) {
                        self.shots[j].exploded()
                    } else {
                        self.shots[j]
                    },
            ),
            ..self
        }
    }

    /// What is left of `swarm` after the shots have been checked against
    /// it: the members on whose cell no shot in flight is.
    pub open spec fn survivors(self, swarm: Swarm) -> Swarm {
        Swarm { army: swarm.army.filter(spared_by(self.shots)), ..swarm }
    }
}

/// A valid player never has more than `MAX_SHOTS` shots: the player stays
/// valid when the ship moves, when the trigger is pulled, when time passes
/// and when the shots are checked against invaders. With `MAX_SHOTS` shots
/// there, pulling the trigger fires nothing and changes nothing.
pub proof fn lemma_shots_stay_capped(ship: Ship, delta: u64, swarm: Swarm)
    requires
        ship.wf(),
    ensures
        ship.moved_left().wf(),
        ship.moved_right().wf(),
        ship.fired().wf(),
        ship.aged(delta).wf(),
        ship.after_clash(swarm).wf(),
        ship.shots.len() == MAX_SHOTS ==> !ship.can_fire() && ship.fired() == ship,
{
    let older = ship.shots.map_values(shot_aged(delta));
    lemma_filter_keeps_all(older, shot_alive());
    lemma_filter_members(older, shot_alive());
    let kept = ship.aged(delta).shots;
    assert forall|j: int| 0 <= j < kept.len() implies (#[trigger] kept[j]).x < ship.cols && kept[j].y
        < ship.rows by {
        assert(older.contains(kept[j]));
        let k = choose|k: int| 0 <= k < older.len() && older[k] == kept[j];
        assert(ship.shots[k].x < ship.cols);
    }
    let after = ship.after_clash(swarm).shots;
    assert forall|j: int| 0 <= j < after.len() implies (#[trigger] after[j]).x < ship.cols && after[j].y
        < ship.rows by {
        assert(ship.shots[j].x < ship.cols);
    }
}

/// A shot in flight on a cell is among `shots` with `s` added exactly when
/// it is among `shots` or is `s`.
pub proof fn lemma_live_on_push(shots: Seq<Shot>, s: Shot, x: int, y: int)
    ensures
        live_on(shots.push(s), x, y) <==> live_on(shots, x, y) || (!s.exploding && s.x == x && s.y == y),
{
    let more = shots.push(s);
    if live_on(shots, x, y) {
        let k = choose|k: int| 0 <= k < shots.len() && !(#[trigger] shots[k]).exploding && shots[k].x == x && shots[k].y == y;
        assert(more[k] == shots[k]);
    }
    if !s.exploding && s.x == x && s.y == y {
        assert(more[shots.len() as int] == s);
    }
    if live_on(more, x, y) {
        let k = choose|k: int| 0 <= k < more.len() && !(#[trigger] more[k]).exploding && more[k].x == x && more[k].y == y;
        if k < shots.len() {
            assert(shots[k] == more[k]);
        }
    }
}

/// How many of `shots` hit a member of `army`.
pub open spec fn strike_count(shots: Seq<Shot>, army: Seq<Invader>) -> nat
    decreases shots.len(),
{
    if shots.len() == 0 {
        0
    } else if strikes(shots, army, shots.len() - 1) {
        strike_count(shots.drop_last(), army) + 1
    } else {
        strike_count(shots.drop_last(), army)
    }
}

/// Whether a shot hits does not depend on the shots that come after it.
pub proof fn lemma_strikes_prefix(shots: Seq<Shot>, army: Seq<Invader>, n: int, j: int)
    requires
        0 <= j < n <= shots.len(),
    ensures
        strikes(shots.take(n), army, j) == strikes(shots, army, j),
{
    assert(shots.take(n).take(j) =~= shots.take(j));
}

/// No more shots hit than there are, and some shot is counted exactly when
/// some shot hits.
pub proof fn lemma_strike_count(shots: Seq<Shot>, army: Seq<Invader>)
    ensures
        strike_count(shots, army) <= shots.len(),
        strike_count(shots, army) > 0 <==> exists|j: int|
            0 <= j < shots.len() && #[trigger] strikes(shots, army, j),
    decreases shots.len(),
{
    if shots.len() > 0 {
        let n = shots.len() - 1;
        let rest = shots.drop_last();
        assert(rest =~= shots.take(n));
        lemma_strike_count(rest, army);
        assert forall|j: int| 0 <= j < n implies strikes(rest, army, j) == strikes(shots, army, j) by {
            lemma_strikes_prefix(shots, army, n, j);
        }
        if strike_count(rest, army) > 0 {
            let j = choose|j: int| 0 <= j < rest.len() && #[trigger] strikes(rest, army, j);
            assert(strikes(shots, army, j));
        }
        if exists|j: int| 0 <= j < shots.len() && #[trigger] strikes(shots, army, j) {
            let j = choose|j: int| 0 <= j < shots.len() && #[trigger] strikes(shots, army, j);
            if j < n {
                assert(strikes(rest, army, j));
            }
        }
    }
}

/// A shot that hits starts to explode where it is, and the cell it hit is
/// empty afterwards. A member survives exactly when no shot in flight was
/// on its cell.
pub proof fn lemma_strike_explodes_and_clears(ship: Ship, swarm: Swarm, j: int)
    requires
        0 <= j < ship.shots.len(),
        strikes(ship.shots, swarm.army, j),
    ensures
        ship.after_clash(swarm).shots[j] == ship.shots[j].exploded(),
        ship.after_clash(swarm).shots[j].exploding,
        !ship.survivors(swarm).occupied(ship.shots[j].x as int, ship.shots[j].y as int),
        forall|e: Invader|
            ship.survivors(swarm).army.contains(e) <==> swarm.army.contains(e) && !live_on(
                ship.shots,
                e.x as int,
                e.y as int,
            ),
{
    let left = ship.survivors(swarm).army;
    lemma_filter_members(swarm.army, spared_by(ship.shots));
    assert forall|e: Invader| left.contains(e) <==> swarm.army.contains(e) && !live_on(
        ship.shots,
        e.x as int,
        e.y as int,
    ) by {
        if left.contains(e) {
            let k = choose|k: int| 0 <= k < left.len() && left[k] == e;
            assert(spared_by(ship.shots)(left[k]));
        }
        if swarm.army.contains(e) && spared_by(ship.shots)(e) {
            let i = choose|i: int| 0 <= i < swarm.army.len() && swarm.army[i] == e;
            assert(left.contains(swarm.army[i]));
        }
    }
    if stands_on(left, ship.shots[j].x as int, ship.shots[j].y as int) {
        let k = choose|k: int|
            0 <= k < left.len() && (#[trigger] left[k]).x == ship.shots[j].x && left[k].y == ship.shots[j].y;
        assert(left.contains(left[k]));
        assert(!ship.shots[j].exploding);
    }
}

/// Where no two invaders share a cell, every shot that hits removes exactly
/// one of them: the formation shrinks by the number of shots that hit.
pub proof fn lemma_each_strike_takes_one(ship: Ship, swarm: Swarm)
    requires
        swarm.spread_out(),
    ensures
        ship.survivors(swarm).army.len() + strike_count(ship.shots, swarm.army) == swarm.army.len(),
        ship.survivors(swarm).spread_out(),
    decreases ship.shots.len(),
{
    let shots = ship.shots;
    let army = swarm.army;
    lemma_filter_no_duplicates(army, spared_by(shots));
    if shots.len() == 0 {
        assert forall|k: int| 0 <= k < army.len() implies spared_by(shots)(#[trigger] army[k]) by {}
        lemma_filter_keeps_all(army, spared_by(shots));
    } else {
        let n = shots.len() - 1;
        let rest = shots.drop_last();
        let s = shots.last();
        let earlier = Ship { shots: rest, ..ship };
        lemma_each_strike_takes_one(earlier, swarm);
        let cur = army.filter(spared_by(rest));
        assert(shots =~= rest.push(s));
        assert(rest =~= shots.take(n));
        assert forall|k: int| 0 <= k < army.len() implies spared_by(shots)(#[trigger] army[k]) == (spared_by(
            rest,
        )(army[k]) && (s.exploding || off_cell(s.x, s.y)(army[k]))) by {
            lemma_live_on_push(rest, s, army[k].x as int, army[k].y as int);
        }
        if s.exploding {
            lemma_filter_same(army, spared_by(rest), spared_by(shots));
        } else {
            lemma_filter_twice(army, spared_by(rest), off_cell(s.x, s.y), spared_by(shots));
            lemma_filter_members(army, spared_by(rest));
            let now = Swarm { army: cur, ..swarm };
            lemma_kill_removes_one(now, s.x, s.y);
            if stands_on(cur, s.x as int, s.y as int) {
                let k = choose|k: int| 0 <= k < cur.len() && (#[trigger] cur[k]).x == s.x && cur[k].y == s.y;
                assert(army.contains(cur[k]));
                let m = choose|m: int| 0 <= m < army.len() && army[m] == cur[k];
                assert(army[m].x == s.x && army[m].y == s.y);
                assert(spared_by(rest)(cur[k]));
            }
            if strikes(shots, army, n) {
                let m = choose|m: int| 0 <= m < army.len() && (#[trigger] army[m]).x == s.x && army[m].y == s.y;
                assert(spared_by(rest)(army[m]));
                assert(cur.contains(army[m]));
                let k = choose|k: int| 0 <= k < cur.len() && cur[k] == army[m];
                assert(cur[k].x == s.x && cur[k].y == s.y);
            }
            assert(stands_on(cur, s.x as int, s.y as int) == strikes(shots, army, n));
        }
    }
}

/// An exploding shot takes no part in a check for hits: where every shot
/// is exploding, no shot hits and nothing changes.
pub proof fn lemma_exploding_shots_are_inert(ship: Ship, swarm: Swarm)
    requires
        forall|j: int| 0 <= j < ship.shots.len() ==> (#[trigger] ship.shots[j]).exploding,
    ensures
        !ship.hits(swarm),
        ship.after_clash(swarm) == ship,
        ship.survivors(swarm) == swarm,
{
    assert forall|k: int| 0 <= k < swarm.army.len() implies spared_by(ship.shots)(#[trigger] swarm.army[k]) by {}
    lemma_filter_keeps_all(swarm.army, spared_by(ship.shots));
    assert(ship.after_clash(swarm).shots =~= ship.shots);
}

/// A second check for hits right after the first finds nothing: no shot
/// hits, and neither the shots nor the formation change.
pub proof fn lemma_second_clash_is_idle(ship: Ship, swarm: Swarm)
    ensures
        !ship.after_clash(swarm).hits(ship.survivors(swarm)),
        ship.after_clash(swarm).after_clash(ship.survivors(swarm)) == ship.after_clash(swarm),
        ship.after_clash(swarm).survivors(ship.survivors(swarm)) == ship.survivors(swarm),
{
    let after = ship.after_clash(swarm);
    let left = ship.survivors(swarm);
    lemma_filter_members(swarm.army, spared_by(ship.shots));
    assert forall|j: int| 0 <= j < after.shots.len() implies !strikes(after.shots, left.army, j) by {
        if !after.shots[j].exploding && stands_on(left.army, after.shots[j].x as int, after.shots[j].y as int) {
            let k = choose|k: int|
                0 <= k < left.army.len() && (#[trigger] left.army[k]).x == after.shots[j].x && left.army[k].y
                    == after.shots[j].y;
            assert(spared_by(ship.shots)(left.army[k]));
            assert(!ship.shots[j].exploding);
        }
    }
    assert(after.after_clash(left).shots =~= after.shots);
    assert forall|k: int| 0 <= k < left.army.len() implies spared_by(after.shots)(#[trigger] left.army[k]) by {
        let e = left.army[k];
        assert(spared_by(ship.shots)(e));
        if live_on(after.shots, e.x as int, e.y as int) {
            let m = choose|m: int|
                0 <= m < after.shots.len() && !(#[trigger] after.shots[m]).exploding && after.shots[m].x == e.x
                    && after.shots[m].y == e.y;
            assert(!ship.shots[m].exploding && ship.shots[m].x == e.x && ship.shots[m].y == e.y);
        }
    }
    lemma_filter_keeps_all(left.army, spared_by(after.shots));
}

/// The player's ship and shots.
pub struct Player {
    field: Field,
    x_pos: usize,
    y_pos: usize,
    shots: Vec<Shot>,
}

impl View for Player {
    type V = Ship;

    closed spec fn view(&self) -> Ship {
        Ship {
            cols: self.field.cols(),
            rows: self.field.rows(),
            x: self.x_pos,
            y: self.y_pos,
            shots: self.shots@,
        }
    }
}

impl Player {
    /// The player is valid; see [`Ship::wf`].
    pub open spec fn wf(&self) -> bool {
        self@.wf()
    }

    /// A player at the start of a game in the standard field.
    pub fn new() -> (player: Player)
        ensures
            player.wf(),
            player@ == Ship::start(crate::NUM_COLS, crate::NUM_ROWS),
    {
        Player::in_field(Field::standard())
    }

    /// A player at the start of a game in `field`.
    pub fn in_field(field: Field) -> (player: Player)
        ensures
            player.wf(),
            player@ == Ship::start(field.cols(), field.rows()),
    {
        Player { field, x_pos: field.cols() / 2, y_pos: field.rows() - 1, shots: Vec::new() }
    }

    /// The field that the player moves in.
    pub fn field(&self) -> (f: Field)
        ensures
            f.cols() == self@.cols,
            f.rows() == self@.rows,
    {
        self.field
    }

    /// The ship's column.
    pub fn x(&self) -> (x: usize)
        ensures
            x == self@.x,
    {
        self.x_pos
    }

    /// The ship's row.
    pub fn y(&self) -> (y: usize)
        ensures
            y == self@.y,
    {
        self.y_pos
    }

    /// The shots that the player has, oldest first.
    pub fn shots(&self) -> (shots: &Vec<Shot>)
        ensures
            shots@ == self@.shots,
    {
        &self.shots
    }

    /// Moves the ship one column to the left; at column 0 it stays.
    pub fn move_left(&mut self)
        ensures
            final(self)@ == old(self)@.moved_left(),
            old(self).wf() ==> final(self).wf(),
    {
        if self.x_pos > 0 {
            self.x_pos -= 1;
        }
    }

    /// Moves the ship one column to the right; at the last column it stays.
    pub fn move_right(&mut self)
        ensures
            final(self)@ == old(self)@.moved_right(),
            old(self).wf() ==> final(self).wf(),
    {
        if self.x_pos < self.field.cols() - 1 {
            self.x_pos += 1;
        }
    }

    /// Fires a shot from the cell above the ship and says whether it did:
    /// it does so exactly when fewer than `MAX_SHOTS` shots are there.
    pub fn shoot(&mut self) -> (fired: bool)
        requires
            old(self).wf(),
        ensures
            final(self).wf(),
            fired == old(self)@.can_fire(),
            final(self)@ == old(self)@.fired(),
    {
        if self.shots.len() < MAX_SHOTS {
            self.shots.push(Shot::new(self.x_pos, self.y_pos - 1));
            true
        } else {
            false
        }
    }

    /// Lets `delta` nanoseconds pass for every shot, and drops the shots
    /// that are over.
    pub fn update(&mut self, delta: u64)
        ensures
            final(self)@ == old(self)@.aged(delta),
            old(self).wf() ==> final(self).wf(),
    {
        let ghost before = self.shots@;
        let ghost older = before.map_values(shot_aged(delta));
        let mut kept: Vec<Shot> = Vec::new();
        let mut i: usize = 0;
        proof {
            assert(older.take(0).filter(shot_alive()) =~= Seq::<Shot>::empty()) by {
                reveal(Seq::filter);
            }
        }
        while i < self.shots.len()
            invariant
                i <= self.shots@.len(),
                self.shots@ == before,
                older == before.map_values(shot_aged(delta)),
                kept@ == older.take(i as int).filter(shot_alive()),
            decreases self.shots@.len() - i,
        {
            let mut shot: Shot = self.shots[i];
            shot.update(delta);
            proof {
                assert(older.take(i + 1) =~= older.take(i as int).push(shot));
                older.take(i as int).lemma_filter_push(shot, shot_alive());
            }
            if !shot.dead() {
                kept.push(shot);
            }
            i += 1;
        }
        proof {
            assert(older.take(i as int) =~= older);
            lemma_filter_keeps_all(older, shot_alive());
            lemma_filter_members(older, shot_alive());
            if old(self).wf() {
                assert forall|j: int| 0 <= j < kept@.len() implies (#[trigger] kept@[j]).x < self@.cols
                    && kept@[j].y < self@.rows by {
                    assert(older.contains(kept@[j]));
                    let k = choose|k: int| 0 <= k < older.len() && older[k] == kept@[j];
                    assert(before[k].x < self@.cols);
                }
            }
        }
        self.shots = kept;
    }

    /// Checks every shot in flight against the invaders: where an invader
    /// stands on the shot's cell, the invader is removed and the shot
    /// starts to explode. Says whether any shot hit.
    pub fn detect_hit(&mut self, invaders: &mut Invaders) -> (hit: bool)
        ensures
            final(self)@ == old(self)@.after_clash(old(invaders)@),
            final(invaders)@ == old(self)@.survivors(old(invaders)@),
            hit == old(self)@.hits(old(invaders)@),
            old(self).wf() ==> final(self).wf(),
            old(invaders).wf() ==> final(invaders).wf(),
    {
        let ghost shots0 = self.shots@;
        let ghost swarm0 = invaders@;
        let ghost army0 = invaders@.army;
        let mut hit: bool = false;
        let mut i: usize = 0;
        proof {
            assert forall|k: int| 0 <= k < army0.len() implies spared_by(shots0.take(0))(#[trigger] army0[k]) by {}
            lemma_filter_keeps_all(army0, spared_by(shots0.take(0)));
        }
        while i < self.shots.len()
            invariant
                i <= shots0.len(),
                self.shots@.len() == shots0.len(),
                self.field == old(self).field,
                self.x_pos == old(self).x_pos,
                self.y_pos == old(self).y_pos,
                shots0 == old(self).shots@,
                swarm0 == old(invaders)@,
                army0 == swarm0.army,
                invaders@ == (Swarm { army: army0.filter(spared_by(shots0.take(i as int))), ..swarm0 }),
                swarm0.wf() ==> invaders.wf(),
                forall|j: int|
                    0 <= j < i ==> #[trigger] self.shots@[j] == (if strikes(shots0, army0, j) {
                        shots0[j].exploded()
                    } else {
                        shots0[j]
                    }),
                forall|j: int| i <= j < shots0.len() ==> self.shots@[j] == shots0[j],
                hit == exists|j: int| 0 <= j < i && #[trigger] strikes(shots0, army0, j),
            decreases shots0.len() - i,
        {
            let shot: Shot = self.shots[i];
            let ghost seen = shots0.take(i as int);
            let ghost cur = army0.filter(spared_by(seen));
            proof {
                assert(shots0.take(i + 1) =~= seen.push(shot));
                assert forall|k: int| 0 <= k < army0.len() implies spared_by(shots0.take(i + 1))(
                    #[trigger] army0[k],
                ) == (spared_by(seen)(army0[k]) && (shot.exploding || off_cell(shot.x, shot.y)(army0[k]))) by {
                    lemma_live_on_push(seen, shot, army0[k].x as int, army0[k].y as int);
                }
            }
            if !shot.exploding {
                let killed: bool = invaders.kill_invader(shot.x, shot.y);
                proof {
                    lemma_filter_twice(
                        army0,
                        spared_by(seen),
                        off_cell(shot.x, shot.y),
                        spared_by(shots0.take(i + 1)),
                    );
                    lemma_filter_members(army0, spared_by(seen));
                    if stands_on(cur, shot.x as int, shot.y as int) {
                        let k = choose|k: int| 0 <= k < cur.len() && (#[trigger] cur[k]).x == shot.x && cur[k].y == shot.y;
                        assert(army0.contains(cur[k]));
                        let m = choose|m: int| 0 <= m < army0.len() && army0[m] == cur[k];
                        assert(army0[m].x == shot.x && army0[m].y == shot.y);
                        assert(spared_by(seen)(cur[k]));
                    }
                    if strikes(shots0, army0, i as int) {
                        let m = choose|m: int| 0 <= m < army0.len() && (#[trigger] army0[m]).x == shot.x && army0[m].y == shot.y;
                        assert(spared_by(seen)(army0[m]));
                        assert(cur.contains(army0[m]));
                        let k = choose|k: int| 0 <= k < cur.len() && cur[k] == army0[m];
                        assert(cur[k].x == shot.x && cur[k].y == shot.y);
                    }
                    assert(killed == strikes(shots0, army0, i as int));
                }
                if killed {
                    hit = true;
                    let mut struck: Shot = shot;
                    struck.explode();
                    self.shots.set(i, struck);
                }
            } else {
                proof {
                    lemma_filter_same(army0, spared_by(seen), spared_by(shots0.take(i + 1)));
                }
            }
            i += 1;
        }
        proof {
            assert(shots0.take(i as int) =~= shots0);
            assert(self.shots@ =~= old(self)@.after_clash(swarm0).shots);
        }
        hit
    }
}

impl Drawable for Player {
    /// The ship and every shot lie inside the field.
    open spec fn fits(&self, cols: usize, rows: usize) -> bool {
        &&& self@.x < cols
        &&& self@.y < rows
        &&& forall|i: int|
            0 <= i < self@.shots.len() ==> (#[trigger] self@.shots[i]).x < cols && self@.shots[i].y < rows
    }

    /// The ship's glyph on its cell, and then the shots' glyphs drawn one
    /// after the other, each on its cell.
    open spec fn drawn(&self, cells: Seq<Seq<char>>) -> Seq<Seq<char>> {
        self@.drawn(cells)
    }

    fn draw(&self, frame: &mut Frame) {
        frame.set(self.x_pos, self.y_pos, PLAYER_GLYPH);
        let ghost ground = frame@;
        let mut i: usize = 0;
        while i < self.shots.len()
            invariant
                i <= self.shots@.len(),
                frame.wf(),
                frame.field() == old(frame).field(),
                self.fits(frame.field().cols(), frame.field().rows()),
                frame@ == self.shots@.take(i as int).fold_left(ground, shot_stamp()),
            decreases self.shots@.len() - i,
        {
            proof {
                assert(self@.shots[i as int].x < frame.field().cols());
                assert(self.shots@.take(i + 1).drop_last() =~= self.shots@.take(i as int));
            }
            self.shots[i].draw(frame);
            i += 1;
        }
        proof {
            assert(self.shots@.take(i as int) =~= self.shots@);
        }
    }
}

} // verus!
