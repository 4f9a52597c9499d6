//! The play field and the frame buffer that one tick is drawn into.

use crate::{NUM_COLS, NUM_ROWS};
use vstd::arithmetic::div_mod::lemma_fundamental_div_mod_converse;
use vstd::prelude::*;

verus! {

/// The glyph of a cell that nothing is drawn on.
pub const BLANK: char = ' ';

/// The size of a play field. A field has at least one column and at least
/// two rows: the bottom row is the player's, the one above it is where a
/// shot appears.
#[derive(Clone, Copy, Debug)]
pub struct Field {
    cols: usize,
    rows: usize,
}

impl Field {
    #[verifier::type_invariant]
    spec fn inv(self) -> bool {
        self.cols >= 1 && self.rows >= 2
    }

    /// The number of columns.
    pub closed spec fn spec_cols(&self) -> usize {
        self.cols
    }

    /// The number of rows.
    pub closed spec fn spec_rows(&self) -> usize {
        self.rows
    }

    /// A field of `cols` columns and `rows` rows, if that is a valid size.
    pub fn new(cols: usize, rows: usize) -> (r: Option<Field>)
        ensures
            r is Some <==> cols >= 1 && rows >= 2,
            r matches Some(f) ==> f.cols() == cols && f.rows() == rows,
    {
        if cols >= 1 && rows >= 2 {
            Some(Field { cols, rows })
        } else {
            None
        }
    }

    /// The standard field of `NUM_COLS` by `NUM_ROWS` cells.
    pub fn standard() -> (f: Field)
        ensures
            f.cols() == NUM_COLS,
            f.rows() == NUM_ROWS,
    {
        Field { cols: NUM_COLS, rows: NUM_ROWS }
    }

    /// The number of columns.
    #[verifier::when_used_as_spec(spec_cols)]
    pub fn cols(&self) -> (c: usize)
        ensures
            c == self.cols(),
            c >= 1,
    {
        proof {
            use_type_invariant(self);
        }
        self.cols
    }

    /// The number of rows.
    #[verifier::when_used_as_spec(spec_rows)]
    pub fn rows(&self) -> (r: usize)
        ensures
            r == self.rows(),
            r >= 2,
    {
        proof {
            use_type_invariant(self);
        }
        self.rows
    }
}

/// The cells of a field of `cols` columns and `rows` rows in drawing order:
/// column by column from the left, each column from the top row down. A cell
/// is a pair of column and row.
pub open spec fn grid(cols: nat, rows: nat) -> Seq<(int, int)> {
    Seq::new(cols * rows, |k: int| (k / rows as int, k % rows as int))
}

/// The cell in column `x` and row `y` is the one at position `x * rows + y`
/// of the grid, so that walking down a column walks along the grid.
pub proof fn lemma_grid_cell(cols: nat, rows: nat, x: int, y: int)
    requires
        0 <= x < cols,
        0 <= y < rows,
    ensures
        0 <= x * rows + y < cols * rows,
        grid(cols, rows)[x * rows + y] == (x, y),
        grid(cols, rows).take(x * rows + y + 1) == grid(cols, rows).take(x * rows + y).push((x, y)),
{
    let k = x * rows + y;
    assert(0 <= k < cols * rows) by (nonlinear_arith)
        requires
            0 <= x < cols,
            0 <= y < rows,
            k == x * rows + y,
    ;
    lemma_fundamental_div_mod_converse(k, rows as int, x, y);
    assert(grid(cols, rows).take(k + 1) =~= grid(cols, rows).take(k).push((x, y)));
}

/// One rendered snapshot of the field: a glyph for every cell, stored
/// column by column.
pub struct Frame {
    field: Field,
    cells: Vec<Vec<char>>,
}

impl View for Frame {
    type V = Seq<Seq<char>>;

    /// The glyphs, indexed by column and then by row.
    closed spec fn view(&self) -> Seq<Seq<char>> {
        Seq::new(self.cells@.len(), |x: int| self.cells@[x]@)
    }
}

/// The cells `cells` with `glyph` in column `x`, row `y`.
pub open spec fn put(cells: Seq<Seq<char>>, x: int, y: int, glyph: char) -> Seq<Seq<char>> {
    cells.update(x, cells[x].update(y, glyph))
}

/// The cells of a blank frame of `cols` columns and `rows` rows.
pub open spec fn blank_cells(cols: usize, rows: usize) -> Seq<Seq<char>> {
    Seq::new(cols as nat, |x: int| Seq::new(rows as nat, |y: int| BLANK))
}

impl Frame {
    /// The field that the frame covers.
    pub closed spec fn spec_field(&self) -> Field {
        self.field
    }

    /// Every column and every row of the field is there.
    pub open spec fn wf(&self) -> bool {
        &&& self@.len() == self.field().cols()
        &&& forall|x: int| 0 <= x < self@.len() ==> (#[trigger] self@[x]).len() == self.field().rows()
    }

    /// The glyph in column `x`, row `y`.
    pub open spec fn at(&self, x: int, y: int) -> char {
        self@[x][y]
    }

    /// A frame of `field`'s size with every cell blank.
    pub fn blank(field: Field) -> (frame: Frame)
        ensures
            frame.wf(),
            frame.field() == field,
            frame@ == blank_cells(field.cols(), field.rows()),
    {
        let cols: usize = field.cols();
        let rows: usize = field.rows();
        let mut cells: Vec<Vec<char>> = Vec::new();
        let mut x: usize = 0;
        while x < cols
            invariant
                x <= cols,
                cells@.len() == x,
                forall|c: int| 0 <= c < x ==> (#[trigger] cells@[c])@.len() == rows,
                forall|c: int, r: int| 0 <= c < x && 0 <= r < rows ==> #[trigger] cells@[c]@[r] == BLANK,
            decreases cols - x,
        {
            let mut column: Vec<char> = Vec::new();
            let mut y: usize = 0;
            while y < rows
                invariant
                    y <= rows,
                    column@.len() == y,
                    forall|r: int| 0 <= r < y ==> column@[r] == BLANK,
                decreases rows - y,
            {
                column.push(BLANK);
                y += 1;
            }
            cells.push(column);
            x += 1;
        }
        let frame = Frame { field, cells };
        proof {
            assert(frame@ =~~= blank_cells(cols, rows));
        }
        frame
    }

    /// The field that the frame covers.
    #[verifier::when_used_as_spec(spec_field)]
    pub fn field(&self) -> (f: Field)
        ensures
            f == self.field(),
    {
        self.field
    }

    /// The glyph in column `x`, row `y`.
    pub fn get(&self, x: usize, y: usize) -> (glyph: char)
        requires
            self.wf(),
            x < self.field().cols(),
            y < self.field().rows(),
        ensures
            glyph == self.at(x as int, y as int),
    {
        assert(self@[x as int].len() == self.field().rows());
        self.cells[x][y]
    }

    /// Puts `glyph` in column `x`, row `y`, and leaves every other cell as
    /// it is.
    pub fn set(&mut self, x: usize, y: usize, glyph: char)
        requires
            old(self).wf(),
            x < old(self).field().cols(),
            y < old(self).field().rows(),
        ensures
            final(self).wf(),
            final(self).field() == old(self).field(),
            final(self)@ == put(old(self)@, x as int, y as int, glyph),
    {
        assert(self@[x as int].len() == self.field().rows());
        self.cells[x][y] = glyph;
        proof {
            let after = put(old(self)@, x as int, y as int, glyph);
            assert(self@ =~~= after);
            assert forall|c: int| 0 <= c < self@.len() implies (#[trigger] self@[c]).len()
                == self.field().rows() by {
                assert(old(self)@[c].len() == self.field().rows());
            }
        }
    }
}

/// What can draw itself into a frame.
pub trait Drawable {
    /// Whether all that this draws lies inside a field of `cols` by `rows`.
    spec fn fits(&self, cols: usize, rows: usize) -> bool;

    /// The cells `cells` with this drawn over them.
    spec fn drawn(&self, cells: Seq<Seq<char>>) -> Seq<Seq<char>>;

    /// Draws this into `frame`, over what is there.
    fn draw(&self, frame: &mut Frame)
        requires
            old(frame).wf(),
            self.fits(old(frame).field().cols(), old(frame).field().rows()),
        ensures
            final(frame).wf(),
            final(frame).field() == old(frame).field(),
            final(frame)@ == self.drawn(old(frame)@),
    ;
}

/// A blank frame of the standard field.
pub fn new_frame() -> (frame: Frame)
    ensures
        frame.wf(),
        frame.field().cols() == NUM_COLS,
        frame.field().rows() == NUM_ROWS,
        frame@ == blank_cells(NUM_COLS, NUM_ROWS),
{
    Frame::blank(Field::standard())
}

} // verus!
