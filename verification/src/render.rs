//! What has to be sent to the terminal to turn one frame into the next.
//!
//! Nothing is written here. `render` returns the instructions, in the order
//! in which they are to be carried out; the caller sends them and flushes.

use crate::frame::{grid, lemma_grid_cell, put, Frame};
use crate::seq_facts::{lemma_filter_keeps_all, lemma_filter_members};
use vstd::arithmetic::div_mod::{lemma_fundamental_div_mod, lemma_fundamental_div_mod_converse};
use vstd::prelude::*;

verus! {

/// A background colour.
#[derive(Clone, Copy, Debug, PartialEq, Eq, Structural)]
pub enum Tint {
    /// The colour round the field.
    Blue,
    /// The colour of the field.
    Black,
}

/// One instruction to the terminal.
#[derive(Clone, Copy, Debug, PartialEq, Eq, Structural)]
pub enum Instruction {
    /// Use this background colour from now on.
    Background(Tint),
    /// Clear the whole screen to the background colour.
    ClearAll,
    /// Put `glyph` in column `x`, row `y`, both counted from 0.
    Place { x: usize, y: usize, glyph: char },
}

/// The instructions that come before the cells: on a forced redraw the
/// screen is cleared to blue and the background set to black, otherwise
/// there are none.
pub open spec fn preamble(force: bool) -> Seq<Instruction> {
    if force {
        seq![
            Instruction::Background(Tint::Blue),
            Instruction::ClearAll,
            Instruction::Background(Tint::Black),
        ]
    } else {
        Seq::empty()
    }
}

/// The predicate "this cell has to be drawn": every cell on a forced
/// redraw, and otherwise the cells whose glyph has changed.
pub open spec fn stale(last: Seq<Seq<char>>, curr: Seq<Seq<char>>, force: bool) -> spec_fn((int, int)) -> bool {
    |c: (int, int)| force || curr[c.0][c.1] != last[c.0][c.1]
}

/// The instruction that draws a cell of `curr`.
pub open spec fn placing(curr: Seq<Seq<char>>) -> spec_fn((int, int)) -> Instruction {
    |c: (int, int)| Instruction::Place { x: c.0 as usize, y: c.1 as usize, glyph: curr[c.0][c.1] }
}

/// The placements that turn `last` into `curr`, in the order of the grid.
pub open spec fn placements(
    cols: usize,
    rows: usize,
    last: Seq<Seq<char>>,
    curr: Seq<Seq<char>>,
    force: bool,
) -> Seq<Instruction> {
    grid(cols as nat, rows as nat).filter(stale(last, curr, force)).map_values(placing(curr))
}

/// All the instructions that turn `last` into `curr`.
pub open spec fn rendering(
    cols: usize,
    rows: usize,
    last: Seq<Seq<char>>,
    curr: Seq<Seq<char>>,
    force: bool,
) -> Seq<Instruction> {
    preamble(force) + placements(cols, rows, last, curr, force)
}

/// What a placement does to the glyphs on a screen.
pub open spec fn place_on() -> spec_fn(Seq<Seq<char>>, Instruction) -> Seq<Seq<char>> {
    |screen: Seq<Seq<char>>, i: Instruction|
        match i {
            Instruction::Place { x, y, glyph } => put(screen, x as int, y as int, glyph),
            _ => screen,
        }
}

/// Whether `cells` has `cols` columns of `rows` rows each.
pub open spec fn shaped(cells: Seq<Seq<char>>, cols: usize, rows: usize) -> bool {
    &&& cells.len() == cols
    &&& forall|x: int| 0 <= x < cols ==> (#[trigger] cells[x]).len() == rows
}

/// The placements for the first `k` cells of the grid.
spec fn placed_upto(
    cols: usize,
    rows: usize,
    last: Seq<Seq<char>>,
    curr: Seq<Seq<char>>,
    force: bool,
    k: int,
) -> Seq<Instruction> {
    grid(cols as nat, rows as nat).take(k).filter(stale(last, curr, force)).map_values(placing(curr))
}

/// After the placements for the first `k` cells of the grid, those cells
/// show the new frame and the others show what the screen held.
proof fn lemma_partial_redraw(
    cols: usize,
    rows: usize,
    screen: Seq<Seq<char>>,
    last: Seq<Seq<char>>,
    curr: Seq<Seq<char>>,
    force: bool,
    k: int,
)
    requires
        shaped(screen, cols, rows),
        shaped(curr, cols, rows),
        force || screen == last,
        0 <= k <= cols * rows,
    ensures
        shaped(placed_upto(cols, rows, last, curr, force, k).fold_left(screen, place_on()), cols, rows),
        forall|x: int, y: int|
            0 <= x < cols && 0 <= y < rows ==> #[trigger] placed_upto(
                cols,
                rows,
                last,
                curr,
                force,
                k,
            ).fold_left(screen, place_on())[x][y] == (if x * rows + y < k {
                curr[x][y]
            } else {
                screen[x][y]
            }),
    decreases k,
{
    let cells = grid(cols as nat, rows as nat);
    let wanted = stale(last, curr, force);
    let after = placed_upto(cols, rows, last, curr, force, k);
    let now = after.fold_left(screen, place_on());
    if k == 0 {
        assert(cells.take(0).filter(wanted) =~= Seq::<(int, int)>::empty()) by {
            reveal(Seq::filter);
        }
        assert(after =~= Seq::<Instruction>::empty());
        assert forall|x: int, y: int| 0 <= x < cols && 0 <= y < rows implies #[trigger] now[x][y] == (if x
            * rows + y < k {
            curr[x][y]
        } else {
            screen[x][y]
        }) by {
            assert(x * rows >= 0) by (nonlinear_arith)
                requires
                    x >= 0,
                    rows >= 0,
            ;
        }
    } else {
        let n = k - 1;
        lemma_partial_redraw(cols, rows, screen, last, curr, force, n);
        let a = n / (rows as int);
        let b = n % (rows as int);
        assert(rows > 0 && 0 <= a < cols && 0 <= b < rows && n == a * rows + b) by {
            assert(rows > 0) by (nonlinear_arith)
                requires
                    0 <= n < cols * rows,
            ;
            lemma_fundamental_div_mod(n, rows as int);
            assert(0 <= a < cols) by (nonlinear_arith)
                requires
                    0 <= n < cols * rows,
                    n == rows * a + b,
                    0 <= b < rows,
            ;
            assert(rows * a == a * rows) by (nonlinear_arith);
        }
        lemma_grid_cell(cols as nat, rows as nat, a, b);
        let before = placed_upto(cols, rows, last, curr, force, n);
        let was = before.fold_left(screen, place_on());
        cells.take(n).lemma_filter_push((a, b), wanted);
        let kept = cells.take(n).filter(wanted);
        assert(was[a].len() == rows);
        assert(was[a][b] == screen[a][b]);
        if wanted((a, b)) {
            let step = Instruction::Place { x: a as usize, y: b as usize, glyph: curr[a][b] };
            assert(kept.push((a, b)).map_values(placing(curr)) =~= before.push(step));
            assert(after == before.push(step));
            assert(after.drop_last() =~= before);
            assert(now == put(was, a, b, curr[a][b]));
        } else {
            assert(after == before);
        }
        assert forall|x: int, y: int| 0 <= x < cols && 0 <= y < rows implies #[trigger] now[x][y] == (if x
            * rows + y < k {
            curr[x][y]
        } else {
            screen[x][y]
        }) by {
            assert(was[x].len() == rows);
            assert(was[x][y] == (if x * rows + y < n {
                curr[x][y]
            } else {
                screen[x][y]
            }));
            if x * rows + y == n {
                lemma_fundamental_div_mod_converse(n, rows as int, x, y);
            }
        }
        assert forall|x: int| 0 <= x < cols implies (#[trigger] now[x]).len() == rows by {
            assert(was[x].len() == rows);
        }
    }
}

/// Carrying out the placements brings the screen to the new frame: from
/// any screen of the right size on a forced redraw, and otherwise from a
/// screen that shows the old frame.
pub proof fn lemma_placements_reach_current(
    cols: usize,
    rows: usize,
    screen: Seq<Seq<char>>,
    last: Seq<Seq<char>>,
    curr: Seq<Seq<char>>,
    force: bool,
)
    requires
        shaped(screen, cols, rows),
        shaped(curr, cols, rows),
        force || screen == last,
    ensures
        placements(cols, rows, last, curr, force).fold_left(screen, place_on()) == curr,
{
    let k = cols * rows;
    lemma_partial_redraw(cols, rows, screen, last, curr, force, k);
    assert(grid(cols as nat, rows as nat).take(k) =~= grid(cols as nat, rows as nat));
    let shown = placements(cols, rows, last, curr, force).fold_left(screen, place_on());
    assert forall|x: int, y: int| 0 <= x < cols && 0 <= y < rows implies shown[x][y] == curr[x][y] by {
        lemma_grid_cell(cols as nat, rows as nat, x, y);
    }
    assert(shown =~~= curr) by {
        assert forall|x: int| 0 <= x < cols implies #[trigger] shown[x] =~= curr[x] by {
            assert forall|y: int| 0 <= y < rows implies shown[x][y] == curr[x][y] by {}
        }
    }
}

/// Between two equal frames nothing is placed, unless the redraw is forced.
pub proof fn lemma_same_frames_place_nothing(cols: usize, rows: usize, cells: Seq<Seq<char>>)
    ensures
        placements(cols, rows, cells, cells, false) == Seq::<Instruction>::empty(),
        rendering(cols, rows, cells, cells, false) == Seq::<Instruction>::empty(),
{
    let kept = grid(cols as nat, rows as nat).filter(stale(cells, cells, false));
    lemma_filter_members(grid(cols as nat, rows as nat), stale(cells, cells, false));
    if kept.len() > 0 {
        assert(stale(cells, cells, false)(kept[0]));
    }
    assert(placements(cols, rows, cells, cells, false) =~= Seq::<Instruction>::empty());
    assert(rendering(cols, rows, cells, cells, false) =~= Seq::<Instruction>::empty());
}

/// A forced redraw places every cell of the field once, in the order of the
/// grid, with the glyph of the new frame, whatever the old frame held.
pub proof fn lemma_forced_redraw_places_all(
    cols: usize,
    rows: usize,
    last: Seq<Seq<char>>,
    curr: Seq<Seq<char>>,
)
    ensures
        placements(cols, rows, last, curr, true).len() == cols * rows,
        placements(cols, rows, last, curr, true) == grid(cols as nat, rows as nat).map_values(
            placing(curr),
        ),
        rendering(cols, rows, last, curr, true).len() == cols * rows + 3,
{
    let cells = grid(cols as nat, rows as nat);
    assert forall|k: int| 0 <= k < cells.len() implies stale(last, curr, true)(#[trigger] cells[k]) by {}
    lemma_filter_keeps_all(cells, stale(last, curr, true));
}

/// The instructions that turn the frame `last_frame` on the screen into
/// `curr_frame`. With `force` the screen is cleared first and every cell is
/// placed; without it only the cells that differ are placed.
pub fn render(last_frame: &Frame, curr_frame: &Frame, force: bool) -> (out: Vec<Instruction>)
    requires
        last_frame.wf(),
        curr_frame.wf(),
        last_frame.field().cols() == curr_frame.field().cols(),
        last_frame.field().rows() == curr_frame.field().rows(),
    ensures
        out@ == rendering(
            curr_frame.field().cols(),
            curr_frame.field().rows(),
            last_frame@,
            curr_frame@,
            force,
        ),
{
    let cols: usize = curr_frame.field().cols();
    let rows: usize = curr_frame.field().rows();
    let ghost cells = grid(cols as nat, rows as nat);
    let ghost wanted = stale(last_frame@, curr_frame@, force);
    let ghost place = placing(curr_frame@);
    let mut out: Vec<Instruction> = Vec::new();
    if force {
        out.push(Instruction::Background(Tint::Blue));
        out.push(Instruction::ClearAll);
        out.push(Instruction::Background(Tint::Black));
    }
    proof {
        assert(cells.take(0).filter(wanted).map_values(place) =~= Seq::<Instruction>::empty()) by {
            reveal(Seq::filter);
        }
        assert(out@ =~= preamble(force) + cells.take(0).filter(wanted).map_values(place));
    }
    let mut x: usize = 0;
    while x < cols
        invariant
            x <= cols,
            rows >= 1,
            last_frame.wf(),
            curr_frame.wf(),
            cols == curr_frame.field().cols(),
            rows == curr_frame.field().rows(),
            cols == last_frame.field().cols(),
            rows == last_frame.field().rows(),
            cells == grid(cols as nat, rows as nat),
            wanted == stale(last_frame@, curr_frame@, force),
            place == placing(curr_frame@),
            out@ == preamble(force) + cells.take(x * rows).filter(wanted).map_values(place),
        decreases cols - x,
    {
        let mut y: usize = 0;
        while y < rows
            invariant
                x < cols,
                y <= rows,
                last_frame.wf(),
                curr_frame.wf(),
                cols == curr_frame.field().cols(),
                rows == curr_frame.field().rows(),
                cols == last_frame.field().cols(),
                rows == last_frame.field().rows(),
                cells == grid(cols as nat, rows as nat),
                wanted == stale(last_frame@, curr_frame@, force),
                place == placing(curr_frame@),
                out@ == preamble(force) + cells.take(x * rows + y).filter(wanted).map_values(place),
            decreases rows - y,
        {
            let glyph: char = curr_frame.get(x, y);
            let before: char = last_frame.get(x, y);
            proof {
                let k = x * rows + y;
                let kept = cells.take(k).filter(wanted);
                lemma_grid_cell(cols as nat, rows as nat, x as int, y as int);
                cells.take(k).lemma_filter_push((x as int, y as int), wanted);
                assert(kept.push((x as int, y as int)).map_values(place) =~= kept.map_values(place).push(
                    Instruction::Place { x, y, glyph },
                ));
                assert(preamble(force) + kept.map_values(place).push(Instruction::Place { x, y, glyph })
                    =~= (preamble(force) + kept.map_values(place)).push(Instruction::Place { x, y, glyph }));
            }
            if glyph != before || force {
                out.push(Instruction::Place { x, y, glyph });
            }
            y += 1;
        }
        proof {
            assert(x * rows + rows == (x + 1) * rows) by (nonlinear_arith);
        }
        x += 1;
    }
    proof {
        assert(cells.take(cols * rows) =~= cells);
    }
    out
}

} // verus!
