use vstd::prelude::*;

verus! {

/// One cell of the 4x5 grid: the block type occupying it, or `Empty`.
#[derive(Clone, Copy, Debug, PartialEq, Eq, Hash, Structural)]
pub enum Cell {
    /// A cell of the single 2x2 block that must reach the goal.
    General,
    /// A cell of a 1x2 (wide) domino.
    Horizontal,
    /// A cell of a 2x1 (tall) domino.
    Vertical,
    /// A 1x1 block.
    Pawn,
    /// No block.
    Empty,
}

/// A board is a row-major grid of 5 rows by 4 columns; cell (x, y) is held at
/// index `y * 4 + x`.
pub struct Board {
    pub cells: Vec<Cell>,
}

/// One piece instance: its type and the column/row of its anchor, the top-left
/// cell it occupies.
#[derive(Clone, Copy, Debug, PartialEq, Eq, Structural)]
pub struct Block {
    pub ty: Cell,
    pub x: usize,
    pub y: usize,
}

/// The row-major index of cell (x, y).
pub open spec fn idx(x: int, y: int) -> int {
    y * 4 + x
}

/// Whether a block of type `t` fits inside the grid when anchored at (ax, ay).
pub open spec fn anchor_ok(t: Cell, ax: int, ay: int) -> bool {
    match t {
        Cell::General => 0 <= ax <= 2 && 0 <= ay <= 3,
        Cell::Horizontal => 0 <= ax <= 2 && 0 <= ay <= 4,
        Cell::Vertical => 0 <= ax <= 3 && 0 <= ay <= 3,
        Cell::Pawn => 0 <= ax <= 3 && 0 <= ay <= 4,
        Cell::Empty => false,
    }
}

/// Whether a block of type `t` anchored at (ax, ay) occupies cell (x, y): the
/// 2x2 general covers its anchor and the three cells right, below and
/// diagonal of it, a domino its anchor and the cell right (wide) or below
/// (tall) of it, a pawn its anchor alone.
pub open spec fn covers_at(t: Cell, ax: int, ay: int, x: int, y: int) -> bool {
    match t {
        Cell::General => ax <= x <= ax + 1 && ay <= y <= ay + 1,
        Cell::Horizontal => y == ay && ax <= x <= ax + 1,
        Cell::Vertical => x == ax && ay <= y <= ay + 1,
        Cell::Pawn => x == ax && y == ay,
        Cell::Empty => false,
    }
}

impl Block {
    /// The block is a real piece whose footprint lies inside the grid.
    pub open spec fn wf(&self) -> bool {
        anchor_ok(self.ty, self.x as int, self.y as int)
    }

    /// Whether this block occupies cell (x, y).
    pub open spec fn covers(&self, x: int, y: int) -> bool {
        covers_at(self.ty, self.x as int, self.y as int, x, y)
    }
}

/// The block really sits on the grid: it is well-formed and every cell of its
/// footprint holds its type.
pub open spec fn seated(s: Seq<Cell>, b: Block) -> bool {
    &&& b.wf()
    &&& forall|x: int, y: int|
        0 <= x < 4 && 0 <= y < 5 && #[trigger] b.covers(x, y) ==> s[idx(x, y)] == b.ty
}

impl View for Board {
    type V = Seq<Cell>;

    open spec fn view(&self) -> Seq<Cell> {
        self.cells@
    }
}

/// A grid snapshot is well-sized when it holds exactly the 20 cells.
pub open spec fn wf_board(s: Seq<Cell>) -> bool {
    s.len() == 20
}

/// How many cells of `s` hold the value `c`.
pub open spec fn count_cell(s: Seq<Cell>, c: Cell) -> nat
    decreases s.len(),
{
    if s.len() == 0 {
        0
    } else {
        count_cell(s.drop_last(), c) + if s.last() == c {
            1nat
        } else {
            0nat
        }
    }
}

/// Overwriting one cell changes the count of each value by the obvious
/// difference between what left and what arrived.
pub proof fn lemma_count_update(s: Seq<Cell>, c: Cell, i: int, v: Cell)
    requires
        0 <= i < s.len(),
    ensures
        count_cell(s.update(i, v), c) == count_cell(s, c) + (if v == c {
            1int
        } else {
            0int
        }) - (if s[i] == c {
            1int
        } else {
            0int
        }),
    decreases s.len(),
{
    let t = s.update(i, v);
    if i == s.len() - 1 {
        assert(t.drop_last() =~= s.drop_last());
    } else {
        assert(t.drop_last() =~= s.drop_last().update(i, v));
        lemma_count_update(s.drop_last(), c, i, v);
    }
}

impl Board {
    /// The board has exactly the 20 cells of the grid.
    pub open spec fn wf(&self) -> bool {
        wf_board(self@)
    }

    /// Read the cell at column `x`, row `y`.
    pub fn get(&self, x: usize, y: usize) -> (c: Cell)
        requires
            self.wf(),
            x < 4,
            y < 5,
        ensures
            c == self@[y as int * 4 + x as int],
    {
        self.cells[y * 4 + x]
    }

    /// Overwrite the cell at column `x`, row `y`.
    pub fn set(&mut self, x: usize, y: usize, c: Cell)
        requires
            old(self).wf(),
            x < 4,
            y < 5,
        ensures
            final(self)@ == old(self)@.update(y as int * 4 + x as int, c),
            final(self).wf(),
    {
        self.cells.set(y * 4 + x, c);
    }

    /// An independent copy of the grid.
    pub fn dup(&self) -> (b: Board)
        requires
            self.wf(),
        ensures
            b@ == self@,
            b.wf(),
    {
        let mut cells: Vec<Cell> = Vec::new();
        let mut i: usize = 0;
        while i < 20
            invariant
                self.wf(),
                i <= 20,
                cells@ =~= self@.take(i as int),
            decreases 20 - i,
        {
            cells.push(self.cells[i]);
            i = i + 1;
        }
        assert(cells@ =~= self@);
        Board { cells }
    }

    /// Whether this grid and `other` match in every cell.
    pub fn same_as(&self, other: &Board) -> (r: bool)
        requires
            self.wf(),
            other.wf(),
        ensures
            r <==> self@ == other@,
    {
        let mut i: usize = 0;
        while i < 20
            invariant
                self.wf(),
                other.wf(),
                i <= 20,
                forall|j: int| 0 <= j < i ==> self@[j] == other@[j],
            decreases 20 - i,
        {
            if self.cells[i] != other.cells[i] {
                return false;
            }
            i = i + 1;
        }
        assert(self@ =~= other@);
        true
    }
}

} // verus!
