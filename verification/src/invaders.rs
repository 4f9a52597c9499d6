//! The formation of invaders: how it is laid out, how it moves and how it
//! loses members.
//!
//! All invaders move in lockstep. Each time the move timer fires the
//! formation takes one step sideways, except when its leading edge already
//! touches the border of the field: then it turns round, drops one row, and
//! the interval between moves shrinks.

use crate::frame::{grid, lemma_grid_cell, put, Drawable, Field, Frame};
use crate::seq_facts::{
    lemma_filter_drops_one, lemma_filter_keeps_all, lemma_filter_members, lemma_filter_no_duplicates,
};
use crate::text::{decimal, push_decimal};
use crate::timer::{Countdown, NANOS_PER_MILLI};
use crate::{NUM_COLS, NUM_ROWS};
use vstd::arithmetic::div_mod::lemma_fundamental_div_mod;
use vstd::prelude::*;

verus! {

/// The interval between two moves of a new formation, in milliseconds.
pub const START_INTERVAL_MILLIS: u64 = 1000;

/// By how much the interval shrinks when the formation turns round, in
/// milliseconds.
pub const INTERVAL_STEP_MILLIS: u64 = 250;

/// The shortest interval between two moves, in milliseconds.
pub const MIN_INTERVAL_MILLIS: u64 = 250;

/// A new formation stands in the rows above this one.
pub const FORMATION_DEPTH: usize = 9;

/// The glyph of an invader in an even column.
pub const EVEN_INVADER: char = 'X';

/// The glyph of an invader in an odd column.
pub const ODD_INVADER: char = '+';

/// One invader, known by the cell it stands on.
#[derive(Clone, Copy, Debug, PartialEq, Eq, Structural)]
pub struct Invader {
    /// The column.
    pub x: usize,
    /// The row, counted from the top.
    pub y: usize,
}

impl Invader {
    /// The invader's cell as text: column and row in decimal with a stroke
    /// between them.
    pub open spec fn label_text(self) -> Seq<char> {
        decimal(self.x as nat) + seq!['/'] + decimal(self.y as nat)
    }

    /// The invader's cell as text, such as `12/4` for column 12, row 4.
    pub fn label(&self) -> (s: String)
        ensures
            s@ == self.label_text(),
    {
        let mut s = String::new();
        push_decimal(&mut s, self.x);
        s.push('/');
        push_decimal(&mut s, self.y);
        s
    }

    /// The glyph of the invader: one for even columns, one for odd ones.
    pub open spec fn glyph(self) -> char {
        if self.x % 2 == 0 {
            EVEN_INVADER
        } else {
            ODD_INVADER
        }
    }
}

/// Draws one invader.
pub open spec fn stamp() -> spec_fn(Seq<Seq<char>>, Invader) -> Seq<Seq<char>> {
    |cells: Seq<Seq<char>>, e: Invader| put(cells, e.x as int, e.y as int, e.glyph())
}

/// The way the formation is heading.
#[derive(Clone, Copy, Debug, PartialEq, Eq, Structural)]
pub enum Direction {
    /// Towards column 0.
    Left,
    /// Towards the last column.
    Right,
}

impl Direction {
    /// The change of column that one step in this direction makes.
    pub open spec fn dx(self) -> int {
        match self {
            Direction::Left => -1,
            Direction::Right => 1,
        }
    }

    /// The opposite direction.
    pub open spec fn reversed(self) -> Direction {
        match self {
            Direction::Left => Direction::Right,
            Direction::Right => Direction::Left,
        }
    }
}

/// Whether a new formation in a field of `cols` by `rows` has an invader in
/// column `x`, row `y`: on every second column and row, two columns clear of
/// either side, below the top row and within the formation's depth.
pub open spec fn in_formation(cols: nat, x: int, y: int) -> bool {
    &&& 1 < x < cols - 2
    &&& 0 < y < FORMATION_DEPTH
    &&& x % 2 == 0
    &&& y % 2 == 0
}

/// `in_formation` as a predicate on cells.
pub open spec fn formation_cell(cols: nat) -> spec_fn((int, int)) -> bool {
    |c: (int, int)| in_formation(cols, c.0, c.1)
}

/// The invader that stands on a cell.
pub open spec fn invader_on() -> spec_fn((int, int)) -> Invader {
    |c: (int, int)| Invader { x: c.0 as usize, y: c.1 as usize }
}

/// The members of a new formation in a field of `cols` by `rows`, in the
/// order of the grid.
pub open spec fn lattice(cols: nat, rows: nat) -> Seq<Invader> {
    grid(cols, rows).filter(formation_cell(cols)).map_values(invader_on())
}

/// The largest column of `army`, and 0 for an empty one.
pub open spec fn max_x(army: Seq<Invader>) -> nat
    decreases army.len(),
{
    if army.len() == 0 {
        0
    } else {
        let rest = max_x(army.drop_last());
        if army.last().x > rest {
            army.last().x as nat
        } else {
            rest
        }
    }
}

/// The smallest column of `army`, and 0 for an empty one.
pub open spec fn min_x(army: Seq<Invader>) -> nat
    decreases army.len(),
{
    if army.len() == 0 {
        0
    } else if army.len() == 1 {
        army[0].x as nat
    } else {
        let rest = min_x(army.drop_last());
        if army.last().x < rest {
            army.last().x as nat
        } else {
            rest
        }
    }
}

/// Whether a member of `army` stands in column `x`, row `y`.
pub open spec fn stands_on(army: Seq<Invader>, x: int, y: int) -> bool {
    exists|i: int| 0 <= i < army.len() && (#[trigger] army[i]).x == x && army[i].y == y
}

/// The predicate "does not stand on column `x`, row `y`".
pub open spec fn off_cell(x: usize, y: usize) -> spec_fn(Invader) -> bool {
    |e: Invader| !(e.x == x && e.y == y)
}

/// One row down.
pub open spec fn lowered() -> spec_fn(Invader) -> Invader {
    |e: Invader| Invader { x: e.x, y: (e.y + 1) as usize }
}

/// One column on in direction `d`.
pub open spec fn moved(d: Direction) -> spec_fn(Invader) -> Invader {
    |e: Invader| Invader { x: (e.x + d.dx()) as usize, y: e.y }
}

/// Every column of `army` is at most `max_x(army)`, and some member of a
/// formation that is not empty stands in that column.
pub proof fn lemma_max_x(army: Seq<Invader>)
    ensures
        forall|i: int| 0 <= i < army.len() ==> (#[trigger] army[i]).x <= max_x(army),
        army.len() > 0 ==> exists|i: int| 0 <= i < army.len() && (#[trigger] army[i]).x == max_x(army),
    decreases army.len(),
{
    if army.len() > 0 {
        let rest = army.drop_last();
        lemma_max_x(rest);
        assert forall|i: int| 0 <= i < army.len() implies (#[trigger] army[i]).x <= max_x(army) by {
            if i < rest.len() {
                assert(rest[i] == army[i]);
            }
        }
        if army.last().x > max_x(rest) {
            assert(army[army.len() - 1].x == max_x(army));
        } else if rest.len() > 0 {
            let i = choose|i: int| 0 <= i < rest.len() && (#[trigger] rest[i]).x == max_x(rest);
            assert(army[i].x == max_x(army));
        } else {
            assert(army[0].x == max_x(army));
        }
    }
}

/// Every column of `army` is at least `min_x(army)`, and some member of a
/// formation that is not empty stands in that column.
pub proof fn lemma_min_x(army: Seq<Invader>)
    ensures
        forall|i: int| 0 <= i < army.len() ==> (#[trigger] army[i]).x >= min_x(army),
        army.len() > 0 ==> exists|i: int| 0 <= i < army.len() && (#[trigger] army[i]).x == min_x(army),
    decreases army.len(),
{
    if army.len() == 1 {
        assert(army[0].x == min_x(army));
    } else if army.len() > 1 {
        let rest = army.drop_last();
        lemma_min_x(rest);
        assert forall|i: int| 0 <= i < army.len() implies (#[trigger] army[i]).x >= min_x(army) by {
            if i < rest.len() {
                assert(rest[i] == army[i]);
            }
        }
        if army.last().x < min_x(rest) {
            assert(army[army.len() - 1].x == min_x(army));
        } else {
            let i = choose|i: int| 0 <= i < rest.len() && (#[trigger] rest[i]).x == min_x(rest);
            assert(army[i].x == min_x(army));
        }
    }
}

/// The formation as a mathematical value.
#[verifier::ext_equal]
pub struct Swarm {
    /// The width of the field.
    pub cols: usize,
    /// The height of the field.
    pub rows: usize,
    /// The members, in the order in which they were set up.
    pub army: Seq<Invader>,
    /// The timer that paces the moves.
    pub timer: Countdown,
    /// The way the formation is heading.
    pub direction: Direction,
}

impl Swarm {
    /// The formation at the start of a game in a field of `cols` by
    /// `rows`: the lattice of that field, heading right, with the starting
    /// interval on its timer.
    pub open spec fn start(cols: usize, rows: usize) -> Swarm {
        Swarm {
            cols,
            rows,
            army: lattice(cols as nat, rows as nat),
            timer: Countdown::fresh(START_INTERVAL_MILLIS),
            direction: Direction::Right,
        }
    }

    /// Every member stands inside the field.
    pub open spec fn all_inside(self) -> bool {
        forall|i: int|
            0 <= i < self.army.len() ==> (#[trigger] self.army[i]).x < self.cols && self.army[i].y
                < self.rows
    }

    /// No two members stand on the same cell.
    pub open spec fn spread_out(self) -> bool {
        self.army.no_duplicates()
    }

    /// The formation is valid: the field has at least one column and two
    /// rows, every member stands inside it, and the move interval is not
    /// below its floor.
    pub open spec fn wf(self) -> bool {
        &&& self.cols >= 1
        &&& self.rows >= 2
        &&& self.all_inside()
        &&& self.timer.millis() >= MIN_INTERVAL_MILLIS
    }

    /// Whether a member stands in column `x`, row `y`.
    pub open spec fn occupied(self, x: int, y: int) -> bool {
        stands_on(self.army, x, y)
    }

    /// No member is left.
    pub open spec fn defeated(self) -> bool {
        self.army.len() == 0
    }

    /// Some member has reached the bottom row.
    pub open spec fn landed(self) -> bool {
        exists|i: int| 0 <= i < self.army.len() && (#[trigger] self.army[i]).y + 1 >= self.rows
    }

    /// Whether the leading edge touches the border it is heading for: the
    /// smallest column is 0 when heading left, the largest column is the
    /// last one when heading right. The extremum of an empty formation
    /// counts as 0.
    pub open spec fn at_edge(self) -> bool {
        match self.direction {
            Direction::Left => min_x(self.army) == 0,
            Direction::Right => max_x(self.army) + 1 == self.cols,
        }
    }

    /// Whether the move timer fires when `delta` nanoseconds pass.
    pub open spec fn fires(self, delta: u64) -> bool {
        self.timer.ticked(delta).ready
    }

    /// The move interval after the formation has turned round: shorter by
    /// one step, but not below the floor.
    pub open spec fn shrunk_millis(self) -> u64 {
        if self.timer.millis() - INTERVAL_STEP_MILLIS > MIN_INTERVAL_MILLIS {
            (self.timer.millis() - INTERVAL_STEP_MILLIS) as u64
        } else {
            MIN_INTERVAL_MILLIS
        }
    }

    /// The formation after `delta` nanoseconds have passed.
    ///
    /// While the timer does not fire only the timer changes. When it fires
    /// at the edge, the formation turns round, every member drops one row
    /// and a shorter timer starts. When it fires elsewhere, every member
    /// moves one column on and the timer starts again.
    pub open spec fn step(self, delta: u64) -> Swarm {
        if !self.fires(delta) {
            Swarm { timer: self.timer.ticked(delta), ..self }
        } else if self.at_edge() {
            Swarm {
                army: self.army.map_values(lowered()),
                timer: Countdown::fresh(self.shrunk_millis()),
                direction: self.direction.reversed(),
                ..self
            }
        } else {
            Swarm {
                army: self.army.map_values(moved(self.direction)),
                timer: self.timer.ticked(delta).rewound(),
                ..self
            }
        }
    }

    /// The formation after the lapses `deltas`, one tick each, in a game:
    /// once the formation has landed the game is over and no further tick
    /// is taken.
    pub open spec fn run(self, deltas: Seq<u64>) -> Swarm
        decreases deltas.len(),
    {
        if deltas.len() == 0 || self.landed() {
            self
        } else {
            self.step(deltas[0]).run(deltas.drop_first())
        }
    }

    /// The cells `cells` with the formation drawn over them: the members'
    /// glyphs one after the other, each on its cell.
    pub open spec fn drawn(self, cells: Seq<Seq<char>>) -> Seq<Seq<char>> {
        self.army.fold_left(cells, stamp())
    }

    /// The formation without the members in column `x`, row `y`.
    pub open spec fn without(self, x: usize, y: usize) -> Swarm {
        Swarm { army: self.army.filter(off_cell(x, y)), ..self }
    }
}

/// In a formation that is not empty, the leading edge touches the border
/// exactly when some member stands in the border column: column 0 when
/// heading left, the last column when heading right.
pub proof fn lemma_edge_is_touched(s: Swarm)
    requires
        s.wf(),
        s.army.len() > 0,
    ensures
        s.direction == Direction::Left ==> (s.at_edge() <==> exists|i: int|
            0 <= i < s.army.len() && (#[trigger] s.army[i]).x == 0),
        s.direction == Direction::Right ==> (s.at_edge() <==> exists|i: int|
            0 <= i < s.army.len() && (#[trigger] s.army[i]).x == s.cols - 1),
{
    lemma_max_x(s.army);
    lemma_min_x(s.army);
}

/// The formation turns round only when the timer fires while the leading
/// edge touches the border. When it turns, an interval above the floor
/// becomes strictly shorter without going below the floor, and an interval
/// at the floor stays there. When it does not turn, the interval is kept.
pub proof fn lemma_turns_only_at_edge(s: Swarm, delta: u64)
    requires
        s.wf(),
    ensures
        s.step(delta).direction != s.direction <==> s.fires(delta) && s.at_edge(),
        s.step(delta).direction == s.direction ==> s.step(delta).timer.millis() == s.timer.millis(),
        s.step(delta).direction != s.direction && s.timer.millis() > MIN_INTERVAL_MILLIS
            ==> MIN_INTERVAL_MILLIS <= s.step(delta).timer.millis() < s.timer.millis(),
        s.step(delta).direction != s.direction && s.timer.millis() == MIN_INTERVAL_MILLIS
            ==> s.step(delta).timer.millis() == MIN_INTERVAL_MILLIS,
{
}

/// The formation moves as one. When the timer fires away from the edge,
/// every member moves by the same one column in the direction of travel
/// and none changes its row. When it fires at the edge, every member drops
/// by one row and none changes its column. Either way nobody joins or
/// leaves, and while the timer does not fire nobody moves.
pub proof fn lemma_moves_in_lockstep(s: Swarm, delta: u64)
    requires
        s.wf(),
    ensures
        s.step(delta).army.len() == s.army.len(),
        !s.fires(delta) ==> s.step(delta).army == s.army,
        s.fires(delta) && !s.at_edge() ==> forall|i: int|
            0 <= i < s.army.len() ==> (#[trigger] s.step(delta).army[i]).x == s.army[i].x
                + s.direction.dx() && s.step(delta).army[i].y == s.army[i].y,
        s.fires(delta) && s.at_edge() ==> forall|i: int|
            0 <= i < s.army.len() ==> (#[trigger] s.step(delta).army[i]).x == s.army[i].x
                && s.step(delta).army[i].y == s.army[i].y + 1,
{
    lemma_max_x(s.army);
    lemma_min_x(s.army);
}

/// No lapse of time takes a member of a valid formation out of its
/// columns, and none takes a member of a formation that has not landed out
/// of the field: such a formation stays valid.
pub proof fn lemma_step_stays_in_field(s: Swarm, delta: u64)
    requires
        s.wf(),
    ensures
        forall|i: int| 0 <= i < s.step(delta).army.len() ==> (#[trigger] s.step(delta).army[i]).x < s.cols,
        s.step(delta).timer.millis() >= MIN_INTERVAL_MILLIS,
        !s.landed() ==> s.step(delta).wf(),
        !s.step(delta).landed() ==> s.step(delta).wf(),
{
    lemma_moves_in_lockstep(s, delta);
    lemma_max_x(s.army);
    lemma_min_x(s.army);
    assert forall|i: int| 0 <= i < s.step(delta).army.len() implies (#[trigger] s.step(delta).army[i]).x
        < s.cols by {
        assert(s.army[i].x < s.cols);
    }
    if !s.landed() {
        assert forall|i: int| 0 <= i < s.step(delta).army.len() implies (#[trigger] s.step(
            delta,
        ).army[i]).y < s.rows by {
            assert(s.army[i].y + 1 < s.rows);
        }
    }
    if !s.step(delta).landed() {
        assert forall|i: int| 0 <= i < s.step(delta).army.len() implies (#[trigger] s.step(
            delta,
        ).army[i]).y < s.rows by {
            assert(s.step(delta).army[i].y + 1 < s.rows);
        }
    }
}

/// A valid formation stays valid over any sequence of ticks of a game.
pub proof fn lemma_run_stays_in_field(s: Swarm, deltas: Seq<u64>)
    requires
        s.wf(),
    ensures
        s.run(deltas).wf(),
    decreases deltas.len(),
{
    if deltas.len() > 0 && !s.landed() {
        lemma_step_stays_in_field(s, deltas[0]);
        lemma_run_stays_in_field(s.step(deltas[0]), deltas.drop_first());
    }
}

/// A new formation has its members exactly on the cells of the field that
/// the pattern names: every member stands on such a cell, and every such
/// cell has a member.
pub proof fn lemma_lattice_cells(cols: usize, rows: usize)
    ensures
        forall|i: int|
            0 <= i < lattice(cols as nat, rows as nat).len() ==> in_formation(
                cols as nat,
                (#[trigger] lattice(cols as nat, rows as nat)[i]).x as int,
                lattice(cols as nat, rows as nat)[i].y as int,
            ) && lattice(cols as nat, rows as nat)[i].y < rows,
        forall|x: int, y: int|
            in_formation(cols as nat, x, y) && y < rows ==> #[trigger] stands_on(
                lattice(cols as nat, rows as nat),
                x,
                y,
            ),
{
    let cells = grid(cols as nat, rows as nat);
    let chosen = cells.filter(formation_cell(cols as nat));
    let army = lattice(cols as nat, rows as nat);
    lemma_filter_members(cells, formation_cell(cols as nat));
    assert forall|i: int| 0 <= i < army.len() implies in_formation(
        cols as nat,
        (#[trigger] army[i]).x as int,
        army[i].y as int,
    ) && army[i].y < rows by {
        assert(formation_cell(cols as nat)(chosen[i]));
        assert(cells.contains(chosen[i]));
        let k = choose|k: int| 0 <= k < cells.len() && cells[k] == chosen[i];
        lemma_fundamental_div_mod(k, rows as int);
    }
    assert forall|x: int, y: int| in_formation(cols as nat, x, y) && y < rows implies #[trigger] stands_on(
        army,
        x,
        y,
    ) by {
        lemma_grid_cell(cols as nat, rows as nat, x, y);
        assert(formation_cell(cols as nat)(cells[x * rows + y]));
        assert(chosen.contains(cells[x * rows + y]));
        let j = choose|j: int| 0 <= j < chosen.len() && chosen[j] == (x, y);
        assert(army[j].x == x && army[j].y == y);
    }
}

/// No two members of a new formation stand on the same cell.
pub proof fn lemma_lattice_spread_out(cols: usize, rows: usize)
    ensures
        lattice(cols as nat, rows as nat).no_duplicates(),
{
    let cells = grid(cols as nat, rows as nat);
    let chosen = cells.filter(formation_cell(cols as nat));
    assert forall|i: int, j: int| 0 <= i < cells.len() && 0 <= j < cells.len() && i != j implies cells[i]
        != cells[j] by {
        lemma_fundamental_div_mod(i, rows as int);
        lemma_fundamental_div_mod(j, rows as int);
    }
    lemma_filter_no_duplicates(cells, formation_cell(cols as nat));
    lemma_filter_members(cells, formation_cell(cols as nat));
    let army = lattice(cols as nat, rows as nat);
    assert forall|i: int, j: int| 0 <= i < army.len() && 0 <= j < army.len() && i != j implies army[i]
        != army[j] by {
        assert(formation_cell(cols as nat)(chosen[i]));
        assert(formation_cell(cols as nat)(chosen[j]));
        assert(chosen[i] != chosen[j]);
    }
}

/// A valid formation whose members stand on different cells keeps them on
/// different cells whatever time passes.
pub proof fn lemma_step_keeps_apart(s: Swarm, delta: u64)
    requires
        s.wf(),
        s.spread_out(),
    ensures
        s.step(delta).spread_out(),
{
    lemma_moves_in_lockstep(s, delta);
    let after = s.step(delta).army;
    assert forall|i: int, j: int| 0 <= i < after.len() && 0 <= j < after.len() && i != j implies after[i]
        != after[j] by {
        assert(s.army[i] != s.army[j]);
    }
}

/// Removing the members on one cell leaves the others on different cells,
/// and leaves that cell empty.
pub proof fn lemma_without_keeps_apart(s: Swarm, x: usize, y: usize)
    ensures
        s.spread_out() ==> s.without(x, y).spread_out(),
        !s.without(x, y).occupied(x as int, y as int),
{
    if s.spread_out() {
        lemma_filter_no_duplicates(s.army, off_cell(x, y));
    }
    lemma_filter_members(s.army, off_cell(x, y));
}

/// Where no two members share a cell, removing the members on a cell that
/// is taken removes exactly one, and removing those on a free cell removes
/// none.
pub proof fn lemma_kill_removes_one(s: Swarm, x: usize, y: usize)
    requires
        s.spread_out(),
    ensures
        s.occupied(x as int, y as int) ==> s.without(x, y).army.len() + 1 == s.army.len(),
        !s.occupied(x as int, y as int) ==> s.without(x, y) == s,
{
    if s.occupied(x as int, y as int) {
        let i = choose|i: int| 0 <= i < s.army.len() && (#[trigger] s.army[i]).x == x && s.army[i].y == y;
        assert(s.army[i] == Invader { x, y });
        lemma_filter_drops_one(s.army, off_cell(x, y), Invader { x, y });
    } else {
        lemma_filter_keeps_all(s.army, off_cell(x, y));
    }
}

/// The formation of invaders.
pub struct Invaders {
    field: Field,
    army: Vec<Invader>,
    move_timer: Countdown,
    direction: Direction,
}

impl View for Invaders {
    type V = Swarm;

    closed spec fn view(&self) -> Swarm {
        Swarm {
            cols: self.field.cols(),
            rows: self.field.rows(),
            army: self.army@,
            timer: self.move_timer,
            direction: self.direction,
        }
    }
}

impl Invaders {
    /// The formation is valid; see [`Swarm::wf`].
    pub open spec fn wf(&self) -> bool {
        self@.wf()
    }

    /// A new formation in the standard field.
    pub fn new() -> (invaders: Invaders)
        ensures
            invaders.wf(),
            invaders@.spread_out(),
            !invaders@.landed(),
            invaders@ == Swarm::start(NUM_COLS, NUM_ROWS),
    {
        Invaders::in_field(Field::standard())
    }

    /// A new formation in `field`: the lattice of that field, heading right,
    /// with the starting interval on its timer.
    pub fn in_field(field: Field) -> (invaders: Invaders)
        ensures
            invaders.wf(),
            invaders@.spread_out(),
            field.rows() > FORMATION_DEPTH ==> !invaders@.landed(),
            invaders@ == Swarm::start(field.cols(), field.rows()),
    {
        let cols: usize = field.cols();
        let rows: usize = field.rows();
        let ghost cells = grid(cols as nat, rows as nat);
        let mut army: Vec<Invader> = Vec::new();
        let mut x: usize = 0;
        proof {
            assert(cells.take(0).filter(formation_cell(cols as nat)).map_values(invader_on())
                =~= Seq::<Invader>::empty()) by {
                reveal(Seq::filter);
            }
        }
        while x < cols
            invariant
                x <= cols,
                rows >= 1,
                cells == grid(cols as nat, rows as nat),
                army@ == cells.take(x * rows).filter(formation_cell(cols as nat)).map_values(
                    invader_on(),
                ),
                forall|i: int| 0 <= i < army@.len() ==> (#[trigger] army@[i]).x < cols && army@[i].y < rows,
            decreases cols - x,
        {
            let mut y: usize = 0;
            while y < rows
                invariant
                    x < cols,
                    y <= rows,
                    cells == grid(cols as nat, rows as nat),
                    army@ == cells.take(x * rows + y).filter(formation_cell(cols as nat)).map_values(
                        invader_on(),
                    ),
                    forall|i: int|
                        0 <= i < army@.len() ==> (#[trigger] army@[i]).x < cols && army@[i].y < rows,
                decreases rows - y,
            {
                proof {
                    let k = x * rows + y;
                    let kept = cells.take(k).filter(formation_cell(cols as nat));
                    lemma_grid_cell(cols as nat, rows as nat, x as int, y as int);
                    cells.take(k).lemma_filter_push((x as int, y as int), formation_cell(cols as nat));
                    assert(kept.push((x as int, y as int)).map_values(invader_on())
                        =~= kept.map_values(invader_on()).push(Invader { x, y }));
                }
                if x > 1 && x < cols - 2 && y > 0 && y < FORMATION_DEPTH && x % 2 == 0 && y % 2 == 0 {
                    army.push(Invader { x, y });
                }
                y += 1;
            }
            proof {
                assert(x * rows + rows == (x + 1) * rows) by (nonlinear_arith);
            }
            x += 1;
        }
        proof {
            assert(cells.take(cols * rows) =~= cells);
            lemma_lattice_spread_out(cols, rows);
            lemma_lattice_cells(cols, rows);
        }
        Invaders {
            field,
            army,
            move_timer: Countdown::from_millis(START_INTERVAL_MILLIS),
            direction: Direction::Right,
        }
    }

    /// The largest column of the formation, and 0 if it is empty.
    fn rightmost(&self) -> (m: usize)
        ensures
            m == max_x(self@.army),
    {
        let mut m: usize = 0;
        let mut i: usize = 0;
        while i < self.army.len()
            invariant
                i <= self.army@.len(),
                m == max_x(self.army@.take(i as int)),
            decreases self.army@.len() - i,
        {
            proof {
                assert(self.army@.take(i + 1).drop_last() =~= self.army@.take(i as int));
            }
            if self.army[i].x > m {
                m = self.army[i].x;
            }
            i += 1;
        }
        proof {
            assert(self.army@.take(i as int) =~= self.army@);
        }
        m
    }

    /// The smallest column of the formation, and 0 if it is empty.
    fn leftmost(&self) -> (m: usize)
        ensures
            m == min_x(self@.army),
    {
        if self.army.len() == 0 {
            return 0;
        }
        let mut m: usize = self.army[0].x;
        let mut i: usize = 1;
        while i < self.army.len()
            invariant
                1 <= i <= self.army@.len(),
                m == min_x(self.army@.take(i as int)),
            decreases self.army@.len() - i,
        {
            proof {
                assert(self.army@.take(i + 1).drop_last() =~= self.army@.take(i as int));
            }
            if self.army[i].x < m {
                m = self.army[i].x;
            }
            i += 1;
        }
        proof {
            assert(self.army@.take(i as int) =~= self.army@);
        }
        m
    }

    /// Drops every member by one row.
    fn descend(&mut self)
        requires
            forall|i: int| 0 <= i < old(self)@.army.len() ==> (#[trigger] old(self)@.army[i]).y < usize::MAX,
        ensures
            final(self)@ == (Swarm { army: old(self)@.army.map_values(lowered()), ..old(self)@ }),
    {
        let mut i: usize = 0;
        while i < self.army.len()
            invariant
                i <= self.army@.len(),
                self.army@.len() == old(self).army@.len(),
                self.field == old(self).field,
                self.move_timer == old(self).move_timer,
                self.direction == old(self).direction,
                forall|j: int| 0 <= j < old(self).army@.len() ==> (#[trigger] old(self).army@[j]).y < usize::MAX,
                forall|j: int| 0 <= j < i ==> self.army@[j] == lowered()(old(self).army@[j]),
                forall|j: int| i <= j < self.army@.len() ==> self.army@[j] == old(self).army@[j],
            decreases self.army@.len() - i,
        {
            let e: Invader = self.army[i];
            self.army.set(i, Invader { x: e.x, y: e.y + 1 });
            i += 1;
        }
        proof {
            assert(self.army@ =~= old(self).army@.map_values(lowered()));
        }
    }

    /// Moves every member one column on in the formation's direction.
    fn sidestep(&mut self)
        requires
            forall|i: int|
                0 <= i < old(self)@.army.len() ==> 0 <= (#[trigger] old(self)@.army[i]).x + old(
                    self,
                )@.direction.dx() <= usize::MAX,
        ensures
            final(self)@ == (Swarm {
                army: old(self)@.army.map_values(moved(old(self)@.direction)),
                ..old(self)@
            }),
    {
        let mut i: usize = 0;
        while i < self.army.len()
            invariant
                i <= self.army@.len(),
                self.army@.len() == old(self).army@.len(),
                self.field == old(self).field,
                self.move_timer == old(self).move_timer,
                self.direction == old(self).direction,
                forall|j: int|
                    0 <= j < old(self).army@.len() ==> 0 <= (#[trigger] old(self).army@[j]).x
                        + self.direction.dx() <= usize::MAX,
                forall|j: int| 0 <= j < i ==> self.army@[j] == moved(self.direction)(old(self).army@[j]),
                forall|j: int| i <= j < self.army@.len() ==> self.army@[j] == old(self).army@[j],
            decreases self.army@.len() - i,
        {
            let e: Invader = self.army[i];
            let x: usize = match self.direction {
                Direction::Left => e.x - 1,
                Direction::Right => e.x + 1,
            };
            self.army.set(i, Invader { x, y: e.y });
            i += 1;
        }
        proof {
            assert(self.army@ =~= old(self).army@.map_values(moved(self.direction)));
        }
    }

    /// Lets `delta` nanoseconds pass and says whether the move timer fired.
    ///
    /// The formation afterwards is `step(delta)` of the one before. A
    /// formation that had not landed stays valid; one that had landed may be
    /// pushed below the field by a further drop.
    pub fn update(&mut self, delta: u64) -> (fired: bool)
        requires
            old(self).wf(),
        ensures
            final(self)@ == old(self)@.step(delta),
            fired == old(self)@.fires(delta),
            !old(self)@.landed() ==> final(self).wf(),
            !final(self)@.landed() ==> final(self).wf(),
    {
        proof {
            lemma_step_stays_in_field(self@, delta);
        }
        self.move_timer.update(delta);
        if !self.move_timer.ready {
            return false;
        }
        self.move_timer.reset();
        proof {
            lemma_max_x(self@.army);
            lemma_min_x(self@.army);
        }
        let at_edge: bool = match self.direction {
            Direction::Left => self.leftmost() == 0,
            Direction::Right => self.rightmost() == self.field.cols() - 1,
        };
        if at_edge {
            let ms: u64 = self.move_timer.duration / NANOS_PER_MILLI;
            let shrunk: u64 = if ms - INTERVAL_STEP_MILLIS > MIN_INTERVAL_MILLIS {
                ms - INTERVAL_STEP_MILLIS
            } else {
                MIN_INTERVAL_MILLIS
            };
            self.move_timer = Countdown::from_millis(shrunk);
            self.direction = match self.direction {
                Direction::Left => Direction::Right,
                Direction::Right => Direction::Left,
            };
            self.descend();
        } else {
            self.sidestep();
        }
        true
    }

    /// Removes the invaders in column `x`, row `y`, and says whether there
    /// was one.
    pub fn kill_invader(&mut self, x: usize, y: usize) -> (killed: bool)
        ensures
            final(self)@ == old(self)@.without(x, y),
            killed == old(self)@.occupied(x as int, y as int),
            old(self).wf() ==> final(self).wf(),
    {
        let mut kept: Vec<Invader> = Vec::new();
        let mut i: usize = 0;
        proof {
            assert(self.army@.take(0).filter(off_cell(x, y)) =~= Seq::<Invader>::empty()) by {
                reveal(Seq::filter);
            }
        }
        while i < self.army.len()
            invariant
                i <= self.army@.len(),
                kept@ == self.army@.take(i as int).filter(off_cell(x, y)),
            decreases self.army@.len() - i,
        {
            let e: Invader = self.army[i];
            proof {
                assert(self.army@.take(i + 1) =~= self.army@.take(i as int).push(e));
                self.army@.take(i as int).lemma_filter_push(e, off_cell(x, y));
            }
            if e.x != x || e.y != y {
                kept.push(e);
            }
            i += 1;
        }
        proof {
            assert(self.army@.take(i as int) =~= self.army@);
            lemma_filter_keeps_all(self.army@, off_cell(x, y));
            lemma_filter_members(self.army@, off_cell(x, y));
            if self@.occupied(x as int, y as int) {
                let j = choose|j: int| 0 <= j < self@.army.len() && (#[trigger] self@.army[j]).x == x && self@.army[j].y == y;
                assert(!off_cell(x, y)(self.army@[j]));
            }
        }
        let killed: bool = kept.len() != self.army.len();
        self.army = kept;
        killed
    }

    /// A formation of the given members, heading in `direction`, with the
    /// starting interval on its timer. There is none if a member stands
    /// outside `field`.
    pub fn deploy(field: Field, army: Vec<Invader>, direction: Direction) -> (r: Option<Invaders>)
        ensures
            r is Some <==> forall|i: int|
                0 <= i < army@.len() ==> (#[trigger] army@[i]).x < field.cols() && army@[i].y
                    < field.rows(),
            r matches Some(invaders) ==> invaders.wf() && invaders@ == (Swarm {
                cols: field.cols(),
                rows: field.rows(),
                army: army@,
                timer: Countdown::fresh(START_INTERVAL_MILLIS),
                direction,
            }),
    {
        let cols: usize = field.cols();
        let rows: usize = field.rows();
        let mut i: usize = 0;
        while i < army.len()
            invariant
                i <= army@.len(),
                cols == field.cols(),
                rows == field.rows(),
                forall|j: int| 0 <= j < i ==> (#[trigger] army@[j]).x < cols && army@[j].y < rows,
            decreases army@.len() - i,
        {
            if army[i].x >= cols || army[i].y >= rows {
                assert(!(army@[i as int].x < cols && army@[i as int].y < rows));
                return None;
            }
            i += 1;
        }
        Some(Invaders { field, army, move_timer: Countdown::from_millis(START_INTERVAL_MILLIS), direction })
    }

    /// The field that the formation moves in.
    pub fn field(&self) -> (f: Field)
        ensures
            f.cols() == self@.cols,
            f.rows() == self@.rows,
    {
        self.field
    }

    /// The members, in the order in which they were set up.
    pub fn army(&self) -> (army: &Vec<Invader>)
        ensures
            army@ == self@.army,
    {
        &self.army
    }

    /// The way the formation is heading.
    pub fn direction(&self) -> (d: Direction)
        ensures
            d == self@.direction,
    {
        self.direction
    }

    /// The interval between two moves, in whole milliseconds.
    pub fn interval_millis(&self) -> (ms: u64)
        ensures
            ms == self@.timer.millis(),
    {
        self.move_timer.duration / NANOS_PER_MILLI
    }

    /// Whether no invader is left.
    pub fn all_killed(&self) -> (b: bool)
        ensures
            b == self@.defeated(),
    {
        self.army.len() == 0
    }

    /// Whether some invader has reached the bottom row.
    pub fn reached_bottom(&self) -> (b: bool)
        ensures
            b == self@.landed(),
    {
        let rows: usize = self.field.rows();
        let mut i: usize = 0;
        while i < self.army.len()
            invariant
                i <= self.army@.len(),
                rows == self@.rows,
                rows >= 2,
                forall|j: int| 0 <= j < i ==> (#[trigger] self.army@[j]).y + 1 < rows,
            decreases self.army@.len() - i,
        {
            if self.army[i].y >= rows - 1 {
                assert(self@.army[i as int].y + 1 >= self@.rows);
                return true;
            }
            i += 1;
        }
        false
    }
}

impl Drawable for Invaders {
    /// Every member stands inside the field.
    open spec fn fits(&self, cols: usize, rows: usize) -> bool {
        forall|i: int|
            0 <= i < self@.army.len() ==> (#[trigger] self@.army[i]).x < cols && self@.army[i].y < rows
    }

    /// The members' glyphs drawn one after the other, each on its cell.
    open spec fn drawn(&self, cells: Seq<Seq<char>>) -> Seq<Seq<char>> {
        self@.drawn(cells)
    }

    fn draw(&self, frame: &mut Frame) {
        let mut i: usize = 0;
        while i < self.army.len()
            invariant
                i <= self.army@.len(),
                frame.wf(),
                frame.field() == old(frame).field(),
                self.fits(frame.field().cols(), frame.field().rows()),
                frame@ == self.army@.take(i as int).fold_left(old(frame)@, stamp()),
            decreases self.army@.len() - i,
        {
            let e: Invader = self.army[i];
            proof {
                assert(self@.army[i as int].x < frame.field().cols());
                assert(self.army@.take(i + 1).drop_last() =~= self.army@.take(i as int));
            }
            if e.x % 2 == 0 {
                frame.set(e.x, e.y, EVEN_INVADER);
            } else {
                frame.set(e.x, e.y, ODD_INVADER);
            }
            i += 1;
        }
        proof {
            assert(self.army@.take(i as int) =~= self.army@);
        }
    }
}

} // verus!
