use vstd::prelude::*;

use crate::board::Board;
use crate::board::Block;
use crate::board::Cell;
use crate::board::anchor_ok;
use crate::board::count_cell;
use crate::board::covers_at;
use crate::board::idx;
use crate::board::lemma_count_update;
use crate::board::seated;
use crate::board::wf_board;

verus! {

/// One of the eight slides a block may attempt: four unit directions and the
/// four same-axis slides by two cells.
#[derive(Clone, Copy, Debug, PartialEq, Eq, Structural)]
pub enum Dir {
    Up,
    Up2,
    Down,
    Down2,
    Left,
    Left2,
    Right,
    Right2,
}

/// The column shift of a slide.
pub open spec fn dxi(d: Dir) -> int {
    match d {
        Dir::Left => -1,
        Dir::Left2 => -2,
        Dir::Right => 1,
        Dir::Right2 => 2,
        _ => 0,
    }
}

/// The row shift of a slide.
pub open spec fn dyi(d: Dir) -> int {
    match d {
        Dir::Up => -1,
        Dir::Up2 => -2,
        Dir::Down => 1,
        Dir::Down2 => 2,
        _ => 0,
    }
}

/// The column of the block's anchor after the slide.
pub open spec fn dest_x(b: Block, d: Dir) -> int {
    b.x as int + dxi(d)
}

/// The row of the block's anchor after the slide.
pub open spec fn dest_y(b: Block, d: Dir) -> int {
    b.y as int + dyi(d)
}

/// Which slides a block shape may attempt at all: the general moves one cell
/// in the four directions, a domino moves by one or two cells along its own
/// axis and by one cell across it, a pawn moves by one or two cells in every
/// direction.
pub open spec fn dir_allowed(t: Cell, d: Dir) -> bool {
    match t {
        Cell::General => d == Dir::Up || d == Dir::Down || d == Dir::Left || d == Dir::Right,
        Cell::Horizontal => d != Dir::Up2 && d != Dir::Down2,
        Cell::Vertical => d != Dir::Left2 && d != Dir::Right2,
        Cell::Pawn => true,
        Cell::Empty => false,
    }
}

/// The cell a pawn jumps over on a two-cell slide; a pawn may cross it only
/// when it is empty, though the pawn does not come to rest on it.
pub open spec fn pawn_mid(b: Block, d: Dir, x: int, y: int) -> bool {
    b.ty == Cell::Pawn && match d {
        Dir::Up2 => x == b.x as int && y == b.y as int - 1,
        Dir::Down2 => x == b.x as int && y == b.y as int + 1,
        Dir::Left2 => y == b.y as int && x == b.x as int - 1,
        Dir::Right2 => y == b.y as int && x == b.x as int + 1,
        _ => false,
    }
}

/// The cells that the slide requires to be empty: every destination cell the
/// block does not already occupy, and for a pawn's two-cell slide also the
/// cell jumped over.
pub open spec fn must_be_empty(b: Block, d: Dir, x: int, y: int) -> bool {
    (covers_at(b.ty, dest_x(b, d), dest_y(b, d), x, y) && !b.covers(x, y)) || pawn_mid(b, d, x, y)
}

/// The slide is legal: the block sits on the board, the shape admits the
/// direction, the moved footprint stays inside the grid, and every required
/// cell is empty.
pub open spec fn move_ok(s: Seq<Cell>, b: Block, d: Dir) -> bool {
    &&& seated(s, b)
    &&& dir_allowed(b.ty, d)
    &&& anchor_ok(b.ty, dest_x(b, d), dest_y(b, d))
    &&& forall|x: int, y: int|
        0 <= x < 4 && 0 <= y < 5 && #[trigger] must_be_empty(b, d, x, y) ==> s[idx(x, y)]
            == Cell::Empty
}

/// The board after the slide: the newly reached cells take the block's type
/// and the vacated cells become empty, written in the order the generator
/// performs them.
pub open spec fn apply_move(s: Seq<Cell>, b: Block, d: Dir) -> Seq<Cell> {
    let x = b.x as int;
    let y = b.y as int;
    let t = b.ty;
    let e = Cell::Empty;
    match (b.ty, d) {
        (Cell::General, Dir::Up) => s.update(idx(x, y - 1), t).update(idx(x + 1, y - 1), t).update(
            idx(x, y + 1),
            e,
        ).update(idx(x + 1, y + 1), e),
        (Cell::General, Dir::Down) => s.update(idx(x, y + 2), t).update(
            idx(x + 1, y + 2),
            t,
        ).update(idx(x, y), e).update(idx(x + 1, y), e),
        (Cell::General, Dir::Left) => s.update(idx(x - 1, y), t).update(
            idx(x - 1, y + 1),
            t,
        ).update(idx(x + 1, y), e).update(idx(x + 1, y + 1), e),
        (Cell::General, Dir::Right) => s.update(idx(x + 2, y), t).update(
            idx(x + 2, y + 1),
            t,
        ).update(idx(x, y), e).update(idx(x, y + 1), e),
        (Cell::Horizontal, Dir::Up) => s.update(idx(x, y - 1), t).update(
            idx(x + 1, y - 1),
            t,
        ).update(idx(x, y), e).update(idx(x + 1, y), e),
        (Cell::Horizontal, Dir::Down) => s.update(idx(x, y + 1), t).update(
            idx(x + 1, y + 1),
            t,
        ).update(idx(x, y), e).update(idx(x + 1, y), e),
        (Cell::Horizontal, Dir::Left) => s.update(idx(x - 1, y), t).update(idx(x + 1, y), e),
        (Cell::Horizontal, Dir::Left2) => s.update(idx(x - 2, y), t).update(
            idx(x - 1, y),
            t,
        ).update(idx(x, y), e).update(idx(x + 1, y), e),
        (Cell::Horizontal, Dir::Right) => s.update(idx(x + 2, y), t).update(idx(x, y), e),
        (Cell::Horizontal, Dir::Right2) => s.update(idx(x + 2, y), t).update(
            idx(x + 3, y),
            t,
        ).update(idx(x, y), e).update(idx(x + 1, y), e),
        (Cell::Vertical, Dir::Up) => s.update(idx(x, y - 1), t).update(idx(x, y + 1), e),
        (Cell::Vertical, Dir::Up2) => s.update(idx(x, y - 2), t).update(idx(x, y - 1), t).update(
            idx(x, y),
            e,
        ).update(idx(x, y + 1), e),
        (Cell::Vertical, Dir::Down) => s.update(idx(x, y + 2), t).update(idx(x, y), e),
        (Cell::Vertical, Dir::Down2) => s.update(idx(x, y + 2), t).update(idx(x, y + 3), t).update(
            idx(x, y),
            e,
        ).update(idx(x, y + 1), e),
        (Cell::Vertical, Dir::Left) => s.update(idx(x - 1, y), t).update(
            idx(x - 1, y + 1),
            t,
        ).update(idx(x, y), e).update(idx(x, y + 1), e),
        (Cell::Vertical, Dir::Right) => s.update(idx(x + 1, y), t).update(
            idx(x + 1, y + 1),
            t,
        ).update(idx(x, y), e).update(idx(x, y + 1), e),
        (Cell::Pawn, Dir::Up) => s.update(idx(x, y - 1), t).update(idx(x, y), e),
        (Cell::Pawn, Dir::Up2) => s.update(idx(x, y - 2), t).update(idx(x, y), e),
        (Cell::Pawn, Dir::Down) => s.update(idx(x, y + 1), t).update(idx(x, y), e),
        (Cell::Pawn, Dir::Down2) => s.update(idx(x, y + 2), t).update(idx(x, y), e),
        (Cell::Pawn, Dir::Left) => s.update(idx(x - 1, y), t).update(idx(x, y), e),
        (Cell::Pawn, Dir::Left2) => s.update(idx(x - 2, y), t).update(idx(x, y), e),
        (Cell::Pawn, Dir::Right) => s.update(idx(x + 1, y), t).update(idx(x, y), e),
        (Cell::Pawn, Dir::Right2) => s.update(idx(x + 2, y), t).update(idx(x, y), e),
        _ => s,
    }
}

/// What each cell holds after the slide: the moved footprint takes the
/// block's type, the rest of the old footprint is vacated, everything else is
/// untouched.
pub open spec fn move_cell(s: Seq<Cell>, b: Block, d: Dir, x: int, y: int) -> Cell {
    if covers_at(b.ty, dest_x(b, d), dest_y(b, d), x, y) {
        b.ty
    } else if b.covers(x, y) {
        Cell::Empty
    } else {
        s[idx(x, y)]
    }
}

/// Filling one empty cell with a piece and vacating one of its cells leaves
/// every cell-value count unchanged.
proof fn lemma_count_swap1(s: Seq<Cell>, f: int, c: int, t: Cell)
    requires
        wf_board(s),
        0 <= f < 20,
        0 <= c < 20,
        f != c,
        s[f] == Cell::Empty,
        s[c] == t,
        t != Cell::Empty,
    ensures
        forall|v: Cell|
            count_cell(s.update(f, t).update(c, Cell::Empty), v) == count_cell(s, v),
{
    let s1 = s.update(f, t);
    assert forall|v: Cell|
        count_cell(s.update(f, t).update(c, Cell::Empty), v) == count_cell(s, v) by {
        lemma_count_update(s, v, f, t);
        lemma_count_update(s1, v, c, Cell::Empty);
        assert(s1[c] == t);
    }
}

/// Filling two empty cells with a piece and vacating two of its cells leaves
/// every cell-value count unchanged.
proof fn lemma_count_swap2(s: Seq<Cell>, f1: int, f2: int, c1: int, c2: int, t: Cell)
    requires
        wf_board(s),
        0 <= f1 < 20,
        0 <= f2 < 20,
        0 <= c1 < 20,
        0 <= c2 < 20,
        f1 != f2 && f1 != c1 && f1 != c2 && f2 != c1 && f2 != c2 && c1 != c2,
        s[f1] == Cell::Empty,
        s[f2] == Cell::Empty,
        s[c1] == t,
        s[c2] == t,
        t != Cell::Empty,
    ensures
        forall|v: Cell|
            count_cell(s.update(f1, t).update(f2, t).update(c1, Cell::Empty).update(c2, Cell::Empty), v)
                == count_cell(s, v),
{
    let s1 = s.update(f1, t);
    let s2 = s1.update(f2, t);
    let s3 = s2.update(c1, Cell::Empty);
    assert forall|v: Cell|
        count_cell(s.update(f1, t).update(f2, t).update(c1, Cell::Empty).update(c2, Cell::Empty), v)
            == count_cell(s, v) by {
        lemma_count_update(s, v, f1, t);
        lemma_count_update(s1, v, f2, t);
        lemma_count_update(s2, v, c1, Cell::Empty);
        lemma_count_update(s3, v, c2, Cell::Empty);
        assert(s1[f2] == Cell::Empty);
        assert(s2[c1] == t);
        assert(s3[c2] == t);
    }
}

/// One legal slide never changes how many cells hold each value, and touches
/// no cell outside the moved block's old and new footprints: the board after
/// the slide is exactly `move_cell` everywhere.
#[verifier::rlimit(100)]
pub proof fn lemma_move_effect(s: Seq<Cell>, b: Block, d: Dir)
    requires
        wf_board(s),
        move_ok(s, b, d),
    ensures
        apply_move(s, b, d).len() == 20,
        forall|v: Cell| #[trigger] count_cell(apply_move(s, b, d), v) == count_cell(s, v),
        forall|x: int, y: int|
            0 <= x < 4 && 0 <= y < 5 ==> apply_move(s, b, d)[idx(x, y)] == #[trigger] move_cell(
                s,
                b,
                d,
                x,
                y,
            ),
{
    let x = b.x as int;
    let y = b.y as int;
    let t = b.ty;
    match (b.ty, d) {
        (Cell::General, Dir::Up) => {
            assert(must_be_empty(b, d, x, y - 1));
            assert(must_be_empty(b, d, x + 1, y - 1));
            assert(b.covers(x, y + 1));
            assert(b.covers(x + 1, y + 1));
            lemma_count_swap2(s, idx(x, y - 1), idx(x + 1, y - 1), idx(x, y + 1), idx(x + 1, y + 1), t);
            assert forall|x0: int, y0: int| 0 <= x0 < 4 && 0 <= y0 < 5 implies apply_move(
                s,
                b,
                d,
            )[idx(x0, y0)] == move_cell(s, b, d, x0, y0) by {
                if b.covers(x0, y0) {
                    assert(s[idx(x0, y0)] == b.ty);
                }
            }
        },
        (Cell::General, Dir::Down) => {
            assert(must_be_empty(b, d, x, y + 2));
            assert(must_be_empty(b, d, x + 1, y + 2));
            assert(b.covers(x, y));
            assert(b.covers(x + 1, y));
            lemma_count_swap2(s, idx(x, y + 2), idx(x + 1, y + 2), idx(x, y), idx(x + 1, y), t);
            assert forall|x0: int, y0: int| 0 <= x0 < 4 && 0 <= y0 < 5 implies apply_move(
                s,
                b,
                d,
            )[idx(x0, y0)] == move_cell(s, b, d, x0, y0) by {
                if b.covers(x0, y0) {
                    assert(s[idx(x0, y0)] == b.ty);
                }
            }
        },
        (Cell::General, Dir::Left) => {
            assert(must_be_empty(b, d, x - 1, y));
            assert(must_be_empty(b, d, x - 1, y + 1));
            assert(b.covers(x + 1, y));
            assert(b.covers(x + 1, y + 1));
            lemma_count_swap2(s, idx(x - 1, y), idx(x - 1, y + 1), idx(x + 1, y), idx(x + 1, y + 1), t);
            assert forall|x0: int, y0: int| 0 <= x0 < 4 && 0 <= y0 < 5 implies apply_move(
                s,
                b,
                d,
            )[idx(x0, y0)] == move_cell(s, b, d, x0, y0) by {
                if b.covers(x0, y0) {
                    assert(s[idx(x0, y0)] == b.ty);
                }
            }
        },
        (Cell::General, Dir::Right) => {
            assert(must_be_empty(b, d, x + 2, y));
            assert(must_be_empty(b, d, x + 2, y + 1));
            assert(b.covers(x, y));
            assert(b.covers(x, y + 1));
            lemma_count_swap2(s, idx(x + 2, y), idx(x + 2, y + 1), idx(x, y), idx(x, y + 1), t);
            assert forall|x0: int, y0: int| 0 <= x0 < 4 && 0 <= y0 < 5 implies apply_move(
                s,
                b,
                d,
            )[idx(x0, y0)] == move_cell(s, b, d, x0, y0) by {
                if b.covers(x0, y0) {
                    assert(s[idx(x0, y0)] == b.ty);
                }
            }
        },
        (Cell::Horizontal, Dir::Up) => {
            assert(must_be_empty(b, d, x, y - 1));
            assert(must_be_empty(b, d, x + 1, y - 1));
            assert(b.covers(x, y));
            assert(b.covers(x + 1, y));
            lemma_count_swap2(s, idx(x, y - 1), idx(x + 1, y - 1), idx(x, y), idx(x + 1, y), t);
            assert forall|x0: int, y0: int| 0 <= x0 < 4 && 0 <= y0 < 5 implies apply_move(
                s,
                b,
                d,
            )[idx(x0, y0)] == move_cell(s, b, d, x0, y0) by {
                if b.covers(x0, y0) {
                    assert(s[idx(x0, y0)] == b.ty);
                }
            }
        },
        (Cell::Horizontal, Dir::Down) => {
            assert(must_be_empty(b, d, x, y + 1));
            assert(must_be_empty(b, d, x + 1, y + 1));
            assert(b.covers(x, y));
            assert(b.covers(x + 1, y));
            lemma_count_swap2(s, idx(x, y + 1), idx(x + 1, y + 1), idx(x, y), idx(x + 1, y), t);
            assert forall|x0: int, y0: int| 0 <= x0 < 4 && 0 <= y0 < 5 implies apply_move(
                s,
                b,
                d,
            )[idx(x0, y0)] == move_cell(s, b, d, x0, y0) by {
                if b.covers(x0, y0) {
                    assert(s[idx(x0, y0)] == b.ty);
                }
            }
        },
        (Cell::Horizontal, Dir::Left) => {
            assert(must_be_empty(b, d, x - 1, y));
            assert(b.covers(x + 1, y));
            lemma_count_swap1(s, idx(x - 1, y), idx(x + 1, y), t);
            assert forall|x0: int, y0: int| 0 <= x0 < 4 && 0 <= y0 < 5 implies apply_move(
                s,
                b,
                d,
            )[idx(x0, y0)] == move_cell(s, b, d, x0, y0) by {
                if b.covers(x0, y0) {
                    assert(s[idx(x0, y0)] == b.ty);
                }
            }
        },
        (Cell::Horizontal, Dir::Left2) => {
            assert(must_be_empty(b, d, x - 2, y));
            assert(must_be_empty(b, d, x - 1, y));
            assert(b.covers(x, y));
            assert(b.covers(x + 1, y));
            lemma_count_swap2(s, idx(x - 2, y), idx(x - 1, y), idx(x, y), idx(x + 1, y), t);
            assert forall|x0: int, y0: int| 0 <= x0 < 4 && 0 <= y0 < 5 implies apply_move(
                s,
                b,
                d,
            )[idx(x0, y0)] == move_cell(s, b, d, x0, y0) by {
                if b.covers(x0, y0) {
                    assert(s[idx(x0, y0)] == b.ty);
                }
            }
        },
        (Cell::Horizontal, Dir::Right) => {
            assert(must_be_empty(b, d, x + 2, y));
            assert(b.covers(x, y));
            lemma_count_swap1(s, idx(x + 2, y), idx(x, y), t);
            assert forall|x0: int, y0: int| 0 <= x0 < 4 && 0 <= y0 < 5 implies apply_move(
                s,
                b,
                d,
            )[idx(x0, y0)] == move_cell(s, b, d, x0, y0) by {
                if b.covers(x0, y0) {
                    assert(s[idx(x0, y0)] == b.ty);
                }
            }
        },
        (Cell::Horizontal, Dir::Right2) => {
            assert(must_be_empty(b, d, x + 2, y));
            assert(must_be_empty(b, d, x + 3, y));
            assert(b.covers(x, y));
            assert(b.covers(x + 1, y));
            lemma_count_swap2(s, idx(x + 2, y), idx(x + 3, y), idx(x, y), idx(x + 1, y), t);
            assert forall|x0: int, y0: int| 0 <= x0 < 4 && 0 <= y0 < 5 implies apply_move(
                s,
                b,
                d,
            )[idx(x0, y0)] == move_cell(s, b, d, x0, y0) by {
                if b.covers(x0, y0) {
                    assert(s[idx(x0, y0)] == b.ty);
                }
            }
        },
        (Cell::Vertical, Dir::Up) => {
            assert(must_be_empty(b, d, x, y - 1));
            assert(b.covers(x, y + 1));
            lemma_count_swap1(s, idx(x, y - 1), idx(x, y + 1), t);
            assert forall|x0: int, y0: int| 0 <= x0 < 4 && 0 <= y0 < 5 implies apply_move(
                s,
                b,
                d,
            )[idx(x0, y0)] == move_cell(s, b, d, x0, y0) by {
                if b.covers(x0, y0) {
                    assert(s[idx(x0, y0)] == b.ty);
                }
            }
        },
        (Cell::Vertical, Dir::Up2) => {
            assert(must_be_empty(b, d, x, y - 2));
            assert(must_be_empty(b, d, x, y - 1));
            assert(b.covers(x, y));
            assert(b.covers(x, y + 1));
            lemma_count_swap2(s, idx(x, y - 2), idx(x, y - 1), idx(x, y), idx(x, y + 1), t);
            assert forall|x0: int, y0: int| 0 <= x0 < 4 && 0 <= y0 < 5 implies apply_move(
                s,
                b,
                d,
            )[idx(x0, y0)] == move_cell(s, b, d, x0, y0) by {
                if b.covers(x0, y0) {
                    assert(s[idx(x0, y0)] == b.ty);
                }
            }
        },
        (Cell::Vertical, Dir::Down) => {
            assert(must_be_empty(b, d, x, y + 2));
            assert(b.covers(x, y));
            lemma_count_swap1(s, idx(x, y + 2), idx(x, y), t);
            assert forall|x0: int, y0: int| 0 <= x0 < 4 && 0 <= y0 < 5 implies apply_move(
                s,
                b,
                d,
            )[idx(x0, y0)] == move_cell(s, b, d, x0, y0) by {
                if b.covers(x0, y0) {
                    assert(s[idx(x0, y0)] == b.ty);
                }
            }
        },
        (Cell::Vertical, Dir::Down2) => {
            assert(must_be_empty(b, d, x, y + 2));
            assert(must_be_empty(b, d, x, y + 3));
            assert(b.covers(x, y));
            assert(b.covers(x, y + 1));
            lemma_count_swap2(s, idx(x, y + 2), idx(x, y + 3), idx(x, y), idx(x, y + 1), t);
            assert forall|x0: int, y0: int| 0 <= x0 < 4 && 0 <= y0 < 5 implies apply_move(
                s,
                b,
                d,
            )[idx(x0, y0)] == move_cell(s, b, d, x0, y0) by {
                if b.covers(x0, y0) {
                    assert(s[idx(x0, y0)] == b.ty);
                }
            }
        },
        (Cell::Vertical, Dir::Left) => {
            assert(must_be_empty(b, d, x - 1, y));
            assert(must_be_empty(b, d, x - 1, y + 1));
            assert(b.covers(x, y));
            assert(b.covers(x, y + 1));
            lemma_count_swap2(s, idx(x - 1, y), idx(x - 1, y + 1), idx(x, y), idx(x, y + 1), t);
            assert forall|x0: int, y0: int| 0 <= x0 < 4 && 0 <= y0 < 5 implies apply_move(
                s,
                b,
                d,
            )[idx(x0, y0)] == move_cell(s, b, d, x0, y0) by {
                if b.covers(x0, y0) {
                    assert(s[idx(x0, y0)] == b.ty);
                }
            }
        },
        (Cell::Vertical, Dir::Right) => {
            assert(must_be_empty(b, d, x + 1, y));
            assert(must_be_empty(b, d, x + 1, y + 1));
            assert(b.covers(x, y));
            assert(b.covers(x, y + 1));
            lemma_count_swap2(s, idx(x + 1, y), idx(x + 1, y + 1), idx(x, y), idx(x, y + 1), t);
            assert forall|x0: int, y0: int| 0 <= x0 < 4 && 0 <= y0 < 5 implies apply_move(
                s,
                b,
                d,
            )[idx(x0, y0)] == move_cell(s, b, d, x0, y0) by {
                if b.covers(x0, y0) {
                    assert(s[idx(x0, y0)] == b.ty);
                }
            }
        },
        (Cell::Pawn, Dir::Up) => {
            assert(must_be_empty(b, d, x, y - 1));
            assert(b.covers(x, y));
            lemma_count_swap1(s, idx(x, y - 1), idx(x, y), t);
            assert forall|x0: int, y0: int| 0 <= x0 < 4 && 0 <= y0 < 5 implies apply_move(
                s,
                b,
                d,
            )[idx(x0, y0)] == move_cell(s, b, d, x0, y0) by {
                if b.covers(x0, y0) {
                    assert(s[idx(x0, y0)] == b.ty);
                }
            }
        },
        (Cell::Pawn, Dir::Up2) => {
            assert(must_be_empty(b, d, x, y - 2));
            assert(b.covers(x, y));
            lemma_count_swap1(s, idx(x, y - 2), idx(x, y), t);
            assert forall|x0: int, y0: int| 0 <= x0 < 4 && 0 <= y0 < 5 implies apply_move(
                s,
                b,
                d,
            )[idx(x0, y0)] == move_cell(s, b, d, x0, y0) by {
                if b.covers(x0, y0) {
                    assert(s[idx(x0, y0)] == b.ty);
                }
            }
        },
        (Cell::Pawn, Dir::Down) => {
            assert(must_be_empty(b, d, x, y + 1));
            assert(b.covers(x, y));
            lemma_count_swap1(s, idx(x, y + 1), idx(x, y), t);
            assert forall|x0: int, y0: int| 0 <= x0 < 4 && 0 <= y0 < 5 implies apply_move(
                s,
                b,
                d,
            )[idx(x0, y0)] == move_cell(s, b, d, x0, y0) by {
                if b.covers(x0, y0) {
                    assert(s[idx(x0, y0)] == b.ty);
                }
            }
        },
        (Cell::Pawn, Dir::Down2) => {
            assert(must_be_empty(b, d, x, y + 2));
            assert(b.covers(x, y));
            lemma_count_swap1(s, idx(x, y + 2), idx(x, y), t);
            assert forall|x0: int, y0: int| 0 <= x0 < 4 && 0 <= y0 < 5 implies apply_move(
                s,
                b,
                d,
            )[idx(x0, y0)] == move_cell(s, b, d, x0, y0) by {
                if b.covers(x0, y0) {
                    assert(s[idx(x0, y0)] == b.ty);
                }
            }
        },
        (Cell::Pawn, Dir::Left) => {
            assert(must_be_empty(b, d, x - 1, y));
            assert(b.covers(x, y));
            lemma_count_swap1(s, idx(x - 1, y), idx(x, y), t);
            assert forall|x0: int, y0: int| 0 <= x0 < 4 && 0 <= y0 < 5 implies apply_move(
                s,
                b,
                d,
            )[idx(x0, y0)] == move_cell(s, b, d, x0, y0) by {
                if b.covers(x0, y0) {
                    assert(s[idx(x0, y0)] == b.ty);
                }
            }
        },
        (Cell::Pawn, Dir::Left2) => {
            assert(must_be_empty(b, d, x - 2, y));
            assert(b.covers(x, y));
            lemma_count_swap1(s, idx(x - 2, y), idx(x, y), t);
            assert forall|x0: int, y0: int| 0 <= x0 < 4 && 0 <= y0 < 5 implies apply_move(
                s,
                b,
                d,
            )[idx(x0, y0)] == move_cell(s, b, d, x0, y0) by {
                if b.covers(x0, y0) {
                    assert(s[idx(x0, y0)] == b.ty);
                }
            }
        },
        (Cell::Pawn, Dir::Right) => {
            assert(must_be_empty(b, d, x + 1, y));
            assert(b.covers(x, y));
            lemma_count_swap1(s, idx(x + 1, y), idx(x, y), t);
            assert forall|x0: int, y0: int| 0 <= x0 < 4 && 0 <= y0 < 5 implies apply_move(
                s,
                b,
                d,
            )[idx(x0, y0)] == move_cell(s, b, d, x0, y0) by {
                if b.covers(x0, y0) {
                    assert(s[idx(x0, y0)] == b.ty);
                }
            }
        },
        (Cell::Pawn, Dir::Right2) => {
            assert(must_be_empty(b, d, x + 2, y));
            assert(b.covers(x, y));
            lemma_count_swap1(s, idx(x + 2, y), idx(x, y), t);
            assert forall|x0: int, y0: int| 0 <= x0 < 4 && 0 <= y0 < 5 implies apply_move(
                s,
                b,
                d,
            )[idx(x0, y0)] == move_cell(s, b, d, x0, y0) by {
                if b.covers(x0, y0) {
                    assert(s[idx(x0, y0)] == b.ty);
                }
            }
        },
        _ => {
            assert(false);
        },
    }
}


/// Attempt one slide of `b` in direction `d`: the resulting board when the
/// slide is legal, `None` otherwise.
pub fn try_move(s: &Board, b: Block, d: Dir) -> (r: Option<Board>)
    requires
        s.wf(),
        seated(s@, b),
    ensures
        r is Some <==> move_ok(s@, b, d),
        r matches Some(nb) ==> nb@ == apply_move(s@, b, d) && nb.wf(),
{
    match b.ty {
        Cell::General => try_move_general(s, b, d),
        Cell::Horizontal => try_move_horizontal(s, b, d),
        Cell::Vertical => try_move_vertical(s, b, d),
        Cell::Pawn => try_move_pawn(s, b, d),
        Cell::Empty => None,
    }
}


/// The slides of a 2x2 general block.
fn try_move_general(s: &Board, b: Block, d: Dir) -> (r: Option<Board>)
    requires
        s.wf(),
        seated(s@, b),
        b.ty == Cell::General,
    ensures
        r is Some <==> move_ok(s@, b, d),
        r matches Some(nb) ==> nb@ == apply_move(s@, b, d) && nb.wf(),
{
    match d {
        Dir::Up => try_general_up(s, b),
        Dir::Down => try_general_down(s, b),
        Dir::Left => try_general_left(s, b),
        Dir::Right => try_general_right(s, b),
        _ => None,
    }
}

fn try_general_up(s: &Board, b: Block) -> (r: Option<Board>)
    requires
        s.wf(),
        seated(s@, b),
        b.ty == Cell::General,
    ensures
        r is Some <==> move_ok(s@, b, Dir::Up),
        r matches Some(nb) ==> nb@ == apply_move(s@, b, Dir::Up) && nb.wf(),
{
    if b.y >= 1 && s.get(b.x, b.y - 1) == Cell::Empty && s.get(b.x + 1, b.y - 1) == Cell::Empty {
        proof {
            assert(must_be_empty(b, Dir::Up, b.x as int, b.y as int - 1));
            assert(must_be_empty(b, Dir::Up, b.x as int + 1, b.y as int - 1));
            assert forall|x0: int, y0: int|
                0 <= x0 < 4 && 0 <= y0 < 5 && must_be_empty(b, Dir::Up, x0, y0)
                implies s@[idx(x0, y0)] == Cell::Empty by {}
            assert(move_ok(s@, b, Dir::Up));
        }
        let mut nb = s.dup();
        nb.set(b.x, b.y - 1, Cell::General);
        nb.set(b.x + 1, b.y - 1, Cell::General);
        nb.set(b.x, b.y + 1, Cell::Empty);
        nb.set(b.x + 1, b.y + 1, Cell::Empty);
        Some(nb)
    } else {
        proof {
            if b.y >= 1 {
                assert(must_be_empty(b, Dir::Up, b.x as int, b.y as int - 1));
                assert(must_be_empty(b, Dir::Up, b.x as int + 1, b.y as int - 1));
            }
        }
        None
    }
}

fn try_general_down(s: &Board, b: Block) -> (r: Option<Board>)
    requires
        s.wf(),
        seated(s@, b),
        b.ty == Cell::General,
    ensures
        r is Some <==> move_ok(s@, b, Dir::Down),
        r matches Some(nb) ==> nb@ == apply_move(s@, b, Dir::Down) && nb.wf(),
{
    if b.y < 3 && s.get(b.x, b.y + 2) == Cell::Empty && s.get(b.x + 1, b.y + 2) == Cell::Empty {
        proof {
            assert(must_be_empty(b, Dir::Down, b.x as int, b.y as int + 2));
            assert(must_be_empty(b, Dir::Down, b.x as int + 1, b.y as int + 2));
            assert forall|x0: int, y0: int|
                0 <= x0 < 4 && 0 <= y0 < 5 && must_be_empty(b, Dir::Down, x0, y0)
                implies s@[idx(x0, y0)] == Cell::Empty by {}
            assert(move_ok(s@, b, Dir::Down));
        }
        let mut nb = s.dup();
        nb.set(b.x, b.y + 2, Cell::General);
        nb.set(b.x + 1, b.y + 2, Cell::General);
        nb.set(b.x, b.y, Cell::Empty);
        nb.set(b.x + 1, b.y, Cell::Empty);
        Some(nb)
    } else {
        proof {
            if b.y < 3 {
                assert(must_be_empty(b, Dir::Down, b.x as int, b.y as int + 2));
                assert(must_be_empty(b, Dir::Down, b.x as int + 1, b.y as int + 2));
            }
        }
        None
    }
}

fn try_general_left(s: &Board, b: Block) -> (r: Option<Board>)
    requires
        s.wf(),
        seated(s@, b),
        b.ty == Cell::General,
    ensures
        r is Some <==> move_ok(s@, b, Dir::Left),
        r matches Some(nb) ==> nb@ == apply_move(s@, b, Dir::Left) && nb.wf(),
{
    if b.x >= 1 && s.get(b.x - 1, b.y) == Cell::Empty && s.get(b.x - 1, b.y + 1) == Cell::Empty {
        proof {
            assert(must_be_empty(b, Dir::Left, b.x as int - 1, b.y as int));
            assert(must_be_empty(b, Dir::Left, b.x as int - 1, b.y as int + 1));
            assert forall|x0: int, y0: int|
                0 <= x0 < 4 && 0 <= y0 < 5 && must_be_empty(b, Dir::Left, x0, y0)
                implies s@[idx(x0, y0)] == Cell::Empty by {}
            assert(move_ok(s@, b, Dir::Left));
        }
        let mut nb = s.dup();
        nb.set(b.x - 1, b.y, Cell::General);
        nb.set(b.x - 1, b.y + 1, Cell::General);
        nb.set(b.x + 1, b.y, Cell::Empty);
        nb.set(b.x + 1, b.y + 1, Cell::Empty);
        Some(nb)
    } else {
        proof {
            if b.x >= 1 {
                assert(must_be_empty(b, Dir::Left, b.x as int - 1, b.y as int));
                assert(must_be_empty(b, Dir::Left, b.x as int - 1, b.y as int + 1));
            }
        }
        None
    }
}

fn try_general_right(s: &Board, b: Block) -> (r: Option<Board>)
    requires
        s.wf(),
        seated(s@, b),
        b.ty == Cell::General,
    ensures
        r is Some <==> move_ok(s@, b, Dir::Right),
        r matches Some(nb) ==> nb@ == apply_move(s@, b, Dir::Right) && nb.wf(),
{
    if b.x < 2 && s.get(b.x + 2, b.y) == Cell::Empty && s.get(b.x + 2, b.y + 1) == Cell::Empty {
        proof {
            assert(must_be_empty(b, Dir::Right, b.x as int + 2, b.y as int));
            assert(must_be_empty(b, Dir::Right, b.x as int + 2, b.y as int + 1));
            assert forall|x0: int, y0: int|
                0 <= x0 < 4 && 0 <= y0 < 5 && must_be_empty(b, Dir::Right, x0, y0)
                implies s@[idx(x0, y0)] == Cell::Empty by {}
            assert(move_ok(s@, b, Dir::Right));
        }
        let mut nb = s.dup();
        nb.set(b.x + 2, b.y, Cell::General);
        nb.set(b.x + 2, b.y + 1, Cell::General);
        nb.set(b.x, b.y, Cell::Empty);
        nb.set(b.x, b.y + 1, Cell::Empty);
        Some(nb)
    } else {
        proof {
            if b.x < 2 {
                assert(must_be_empty(b, Dir::Right, b.x as int + 2, b.y as int));
                assert(must_be_empty(b, Dir::Right, b.x as int + 2, b.y as int + 1));
            }
        }
        None
    }
}

/// The slides of a 1x2 domino block.
fn try_move_horizontal(s: &Board, b: Block, d: Dir) -> (r: Option<Board>)
    requires
        s.wf(),
        seated(s@, b),
        b.ty == Cell::Horizontal,
    ensures
        r is Some <==> move_ok(s@, b, d),
        r matches Some(nb) ==> nb@ == apply_move(s@, b, d) && nb.wf(),
{
    match d {
        Dir::Up => try_horizontal_up(s, b),
        Dir::Down => try_horizontal_down(s, b),
        Dir::Left => try_horizontal_left(s, b),
        Dir::Left2 => try_horizontal_left2(s, b),
        Dir::Right => try_horizontal_right(s, b),
        Dir::Right2 => try_horizontal_right2(s, b),
        _ => None,
    }
}

fn try_horizontal_up(s: &Board, b: Block) -> (r: Option<Board>)
    requires
        s.wf(),
        seated(s@, b),
        b.ty == Cell::Horizontal,
    ensures
        r is Some <==> move_ok(s@, b, Dir::Up),
        r matches Some(nb) ==> nb@ == apply_move(s@, b, Dir::Up) && nb.wf(),
{
    if b.y >= 1 && s.get(b.x, b.y - 1) == Cell::Empty && s.get(b.x + 1, b.y - 1) == Cell::Empty {
        proof {
            assert(must_be_empty(b, Dir::Up, b.x as int, b.y as int - 1));
            assert(must_be_empty(b, Dir::Up, b.x as int + 1, b.y as int - 1));
            assert forall|x0: int, y0: int|
                0 <= x0 < 4 && 0 <= y0 < 5 && must_be_empty(b, Dir::Up, x0, y0)
                implies s@[idx(x0, y0)] == Cell::Empty by {}
            assert(move_ok(s@, b, Dir::Up));
        }
        let mut nb = s.dup();
        nb.set(b.x, b.y - 1, Cell::Horizontal);
        nb.set(b.x + 1, b.y - 1, Cell::Horizontal);
        nb.set(b.x, b.y, Cell::Empty);
        nb.set(b.x + 1, b.y, Cell::Empty);
        Some(nb)
    } else {
        proof {
            if b.y >= 1 {
                assert(must_be_empty(b, Dir::Up, b.x as int, b.y as int - 1));
                assert(must_be_empty(b, Dir::Up, b.x as int + 1, b.y as int - 1));
            }
        }
        None
    }
}

fn try_horizontal_down(s: &Board, b: Block) -> (r: Option<Board>)
    requires
        s.wf(),
        seated(s@, b),
        b.ty == Cell::Horizontal,
    ensures
        r is Some <==> move_ok(s@, b, Dir::Down),
        r matches Some(nb) ==> nb@ == apply_move(s@, b, Dir::Down) && nb.wf(),
{
    if b.y < 4 && s.get(b.x, b.y + 1) == Cell::Empty && s.get(b.x + 1, b.y + 1) == Cell::Empty {
        proof {
            assert(must_be_empty(b, Dir::Down, b.x as int, b.y as int + 1));
            assert(must_be_empty(b, Dir::Down, b.x as int + 1, b.y as int + 1));
            assert forall|x0: int, y0: int|
                0 <= x0 < 4 && 0 <= y0 < 5 && must_be_empty(b, Dir::Down, x0, y0)
                implies s@[idx(x0, y0)] == Cell::Empty by {}
            assert(move_ok(s@, b, Dir::Down));
        }
        let mut nb = s.dup();
        nb.set(b.x, b.y + 1, Cell::Horizontal);
        nb.set(b.x + 1, b.y + 1, Cell::Horizontal);
        nb.set(b.x, b.y, Cell::Empty);
        nb.set(b.x + 1, b.y, Cell::Empty);
        Some(nb)
    } else {
        proof {
            if b.y < 4 {
                assert(must_be_empty(b, Dir::Down, b.x as int, b.y as int + 1));
                assert(must_be_empty(b, Dir::Down, b.x as int + 1, b.y as int + 1));
            }
        }
        None
    }
}

fn try_horizontal_left(s: &Board, b: Block) -> (r: Option<Board>)
    requires
        s.wf(),
        seated(s@, b),
        b.ty == Cell::Horizontal,
    ensures
        r is Some <==> move_ok(s@, b, Dir::Left),
        r matches Some(nb) ==> nb@ == apply_move(s@, b, Dir::Left) && nb.wf(),
{
    if b.x >= 1 && s.get(b.x - 1, b.y) == Cell::Empty {
        proof {
            assert(must_be_empty(b, Dir::Left, b.x as int - 1, b.y as int));
            assert forall|x0: int, y0: int|
                0 <= x0 < 4 && 0 <= y0 < 5 && must_be_empty(b, Dir::Left, x0, y0)
                implies s@[idx(x0, y0)] == Cell::Empty by {}
            assert(move_ok(s@, b, Dir::Left));
        }
        let mut nb = s.dup();
        nb.set(b.x - 1, b.y, Cell::Horizontal);
        nb.set(b.x + 1, b.y, Cell::Empty);
        Some(nb)
    } else {
        proof {
            if b.x >= 1 {
                assert(must_be_empty(b, Dir::Left, b.x as int - 1, b.y as int));
            }
        }
        None
    }
}

fn try_horizontal_left2(s: &Board, b: Block) -> (r: Option<Board>)
    requires
        s.wf(),
        seated(s@, b),
        b.ty == Cell::Horizontal,
    ensures
        r is Some <==> move_ok(s@, b, Dir::Left2),
        r matches Some(nb) ==> nb@ == apply_move(s@, b, Dir::Left2) && nb.wf(),
{
    if b.x >= 2 && s.get(b.x - 2, b.y) == Cell::Empty && s.get(b.x - 1, b.y) == Cell::Empty {
        proof {
            assert(must_be_empty(b, Dir::Left2, b.x as int - 2, b.y as int));
            assert(must_be_empty(b, Dir::Left2, b.x as int - 1, b.y as int));
            assert forall|x0: int, y0: int|
                0 <= x0 < 4 && 0 <= y0 < 5 && must_be_empty(b, Dir::Left2, x0, y0)
                implies s@[idx(x0, y0)] == Cell::Empty by {}
            assert(move_ok(s@, b, Dir::Left2));
        }
        let mut nb = s.dup();
        nb.set(b.x - 2, b.y, Cell::Horizontal);
        nb.set(b.x - 1, b.y, Cell::Horizontal);
        nb.set(b.x, b.y, Cell::Empty);
        nb.set(b.x + 1, b.y, Cell::Empty);
        Some(nb)
    } else {
        proof {
            if b.x >= 2 {
                assert(must_be_empty(b, Dir::Left2, b.x as int - 2, b.y as int));
                assert(must_be_empty(b, Dir::Left2, b.x as int - 1, b.y as int));
            }
        }
        None
    }
}

fn try_horizontal_right(s: &Board, b: Block) -> (r: Option<Board>)
    requires
        s.wf(),
        seated(s@, b),
        b.ty == Cell::Horizontal,
    ensures
        r is Some <==> move_ok(s@, b, Dir::Right),
        r matches Some(nb) ==> nb@ == apply_move(s@, b, Dir::Right) && nb.wf(),
{
    if b.x < 2 && s.get(b.x + 2, b.y) == Cell::Empty {
        proof {
            assert(must_be_empty(b, Dir::Right, b.x as int + 2, b.y as int));
            assert forall|x0: int, y0: int|
                0 <= x0 < 4 && 0 <= y0 < 5 && must_be_empty(b, Dir::Right, x0, y0)
                implies s@[idx(x0, y0)] == Cell::Empty by {}
            assert(move_ok(s@, b, Dir::Right));
        }
        let mut nb = s.dup();
        nb.set(b.x + 2, b.y, Cell::Horizontal);
        nb.set(b.x, b.y, Cell::Empty);
        Some(nb)
    } else {
        proof {
            if b.x < 2 {
                assert(must_be_empty(b, Dir::Right, b.x as int + 2, b.y as int));
            }
        }
        None
    }
}

fn try_horizontal_right2(s: &Board, b: Block) -> (r: Option<Board>)
    requires
        s.wf(),
        seated(s@, b),
        b.ty == Cell::Horizontal,
    ensures
        r is Some <==> move_ok(s@, b, Dir::Right2),
        r matches Some(nb) ==> nb@ == apply_move(s@, b, Dir::Right2) && nb.wf(),
{
    if b.x < 1 && s.get(b.x + 2, b.y) == Cell::Empty && s.get(b.x + 3, b.y) == Cell::Empty {
        proof {
            assert(must_be_empty(b, Dir::Right2, b.x as int + 2, b.y as int));
            assert(must_be_empty(b, Dir::Right2, b.x as int + 3, b.y as int));
            assert forall|x0: int, y0: int|
                0 <= x0 < 4 && 0 <= y0 < 5 && must_be_empty(b, Dir::Right2, x0, y0)
                implies s@[idx(x0, y0)] == Cell::Empty by {}
            assert(move_ok(s@, b, Dir::Right2));
        }
        let mut nb = s.dup();
        nb.set(b.x + 2, b.y, Cell::Horizontal);
        nb.set(b.x + 3, b.y, Cell::Horizontal);
        nb.set(b.x, b.y, Cell::Empty);
        nb.set(b.x + 1, b.y, Cell::Empty);
        Some(nb)
    } else {
        proof {
            if b.x < 1 {
                assert(must_be_empty(b, Dir::Right2, b.x as int + 2, b.y as int));
                assert(must_be_empty(b, Dir::Right2, b.x as int + 3, b.y as int));
            }
        }
        None
    }
}

/// The slides of a 2x1 domino block.
fn try_move_vertical(s: &Board, b: Block, d: Dir) -> (r: Option<Board>)
    requires
        s.wf(),
        seated(s@, b),
        b.ty == Cell::Vertical,
    ensures
        r is Some <==> move_ok(s@, b, d),
        r matches Some(nb) ==> nb@ == apply_move(s@, b, d) && nb.wf(),
{
    match d {
        Dir::Up => try_vertical_up(s, b),
        Dir::Up2 => try_vertical_up2(s, b),
        Dir::Down => try_vertical_down(s, b),
        Dir::Down2 => try_vertical_down2(s, b),
        Dir::Left => try_vertical_left(s, b),
        Dir::Right => try_vertical_right(s, b),
        _ => None,
    }
}

fn try_vertical_up(s: &Board, b: Block) -> (r: Option<Board>)
    requires
        s.wf(),
        seated(s@, b),
        b.ty == Cell::Vertical,
    ensures
        r is Some <==> move_ok(s@, b, Dir::Up),
        r matches Some(nb) ==> nb@ == apply_move(s@, b, Dir::Up) && nb.wf(),
{
    if b.y >= 1 && s.get(b.x, b.y - 1) == Cell::Empty {
        proof {
            assert(must_be_empty(b, Dir::Up, b.x as int, b.y as int - 1));
            assert forall|x0: int, y0: int|
                0 <= x0 < 4 && 0 <= y0 < 5 && must_be_empty(b, Dir::Up, x0, y0)
                implies s@[idx(x0, y0)] == Cell::Empty by {}
            assert(move_ok(s@, b, Dir::Up));
        }
        let mut nb = s.dup();
        nb.set(b.x, b.y - 1, Cell::Vertical);
        nb.set(b.x, b.y + 1, Cell::Empty);
        Some(nb)
    } else {
        proof {
            if b.y >= 1 {
                assert(must_be_empty(b, Dir::Up, b.x as int, b.y as int - 1));
            }
        }
        None
    }
}

fn try_vertical_up2(s: &Board, b: Block) -> (r: Option<Board>)
    requires
        s.wf(),
        seated(s@, b),
        b.ty == Cell::Vertical,
    ensures
        r is Some <==> move_ok(s@, b, Dir::Up2),
        r matches Some(nb) ==> nb@ == apply_move(s@, b, Dir::Up2) && nb.wf(),
{
    if b.y >= 2 && s.get(b.x, b.y - 2) == Cell::Empty && s.get(b.x, b.y - 1) == Cell::Empty {
        proof {
            assert(must_be_empty(b, Dir::Up2, b.x as int, b.y as int - 2));
            assert(must_be_empty(b, Dir::Up2, b.x as int, b.y as int - 1));
            assert forall|x0: int, y0: int|
                0 <= x0 < 4 && 0 <= y0 < 5 && must_be_empty(b, Dir::Up2, x0, y0)
                implies s@[idx(x0, y0)] == Cell::Empty by {}
            assert(move_ok(s@, b, Dir::Up2));
        }
        let mut nb = s.dup();
        nb.set(b.x, b.y - 2, Cell::Vertical);
        nb.set(b.x, b.y - 1, Cell::Vertical);
        nb.set(b.x, b.y, Cell::Empty);
        nb.set(b.x, b.y + 1, Cell::Empty);
        Some(nb)
    } else {
        proof {
            if b.y >= 2 {
                assert(must_be_empty(b, Dir::Up2, b.x as int, b.y as int - 2));
                assert(must_be_empty(b, Dir::Up2, b.x as int, b.y as int - 1));
            }
        }
        None
    }
}

fn try_vertical_down(s: &Board, b: Block) -> (r: Option<Board>)
    requires
        s.wf(),
        seated(s@, b),
        b.ty == Cell::Vertical,
    ensures
        r is Some <==> move_ok(s@, b, Dir::Down),
        r matches Some(nb) ==> nb@ == apply_move(s@, b, Dir::Down) && nb.wf(),
{
    if b.y < 3 && s.get(b.x, b.y + 2) == Cell::Empty {
        proof {
            assert(must_be_empty(b, Dir::Down, b.x as int, b.y as int + 2));
            assert forall|x0: int, y0: int|
                0 <= x0 < 4 && 0 <= y0 < 5 && must_be_empty(b, Dir::Down, x0, y0)
                implies s@[idx(x0, y0)] == Cell::Empty by {}
            assert(move_ok(s@, b, Dir::Down));
        }
        let mut nb = s.dup();
        nb.set(b.x, b.y + 2, Cell::Vertical);
        nb.set(b.x, b.y, Cell::Empty);
        Some(nb)
    } else {
        proof {
            if b.y < 3 {
                assert(must_be_empty(b, Dir::Down, b.x as int, b.y as int + 2));
            }
        }
        None
    }
}

fn try_vertical_down2(s: &Board, b: Block) -> (r: Option<Board>)
    requires
        s.wf(),
        seated(s@, b),
        b.ty == Cell::Vertical,
    ensures
        r is Some <==> move_ok(s@, b, Dir::Down2),
        r matches Some(nb) ==> nb@ == apply_move(s@, b, Dir::Down2) && nb.wf(),
{
    if b.y < 2 && s.get(b.x, b.y + 2) == Cell::Empty && s.get(b.x, b.y + 3) == Cell::Empty {
        proof {
            assert(must_be_empty(b, Dir::Down2, b.x as int, b.y as int + 2));
            assert(must_be_empty(b, Dir::Down2, b.x as int, b.y as int + 3));
            assert forall|x0: int, y0: int|
                0 <= x0 < 4 && 0 <= y0 < 5 && must_be_empty(b, Dir::Down2, x0, y0)
                implies s@[idx(x0, y0)] == Cell::Empty by {}
            assert(move_ok(s@, b, Dir::Down2));
        }
        let mut nb = s.dup();
        nb.set(b.x, b.y + 2, Cell::Vertical);
        nb.set(b.x, b.y + 3, Cell::Vertical);
        nb.set(b.x, b.y, Cell::Empty);
        nb.set(b.x, b.y + 1, Cell::Empty);
        Some(nb)
    } else {
        proof {
            if b.y < 2 {
                assert(must_be_empty(b, Dir::Down2, b.x as int, b.y as int + 2));
                assert(must_be_empty(b, Dir::Down2, b.x as int, b.y as int + 3));
            }
        }
        None
    }
}

fn try_vertical_left(s: &Board, b: Block) -> (r: Option<Board>)
    requires
        s.wf(),
        seated(s@, b),
        b.ty == Cell::Vertical,
    ensures
        r is Some <==> move_ok(s@, b, Dir::Left),
        r matches Some(nb) ==> nb@ == apply_move(s@, b, Dir::Left) && nb.wf(),
{
    if b.x >= 1 && s.get(b.x - 1, b.y) == Cell::Empty && s.get(b.x - 1, b.y + 1) == Cell::Empty {
        proof {
            assert(must_be_empty(b, Dir::Left, b.x as int - 1, b.y as int));
            assert(must_be_empty(b, Dir::Left, b.x as int - 1, b.y as int + 1));
            assert forall|x0: int, y0: int|
                0 <= x0 < 4 && 0 <= y0 < 5 && must_be_empty(b, Dir::Left, x0, y0)
                implies s@[idx(x0, y0)] == Cell::Empty by {}
            assert(move_ok(s@, b, Dir::Left));
        }
        let mut nb = s.dup();
        nb.set(b.x - 1, b.y, Cell::Vertical);
        nb.set(b.x - 1, b.y + 1, Cell::Vertical);
        nb.set(b.x, b.y, Cell::Empty);
        nb.set(b.x, b.y + 1, Cell::Empty);
        Some(nb)
    } else {
        proof {
            if b.x >= 1 {
                assert(must_be_empty(b, Dir::Left, b.x as int - 1, b.y as int));
                assert(must_be_empty(b, Dir::Left, b.x as int - 1, b.y as int + 1));
            }
        }
        None
    }
}

fn try_vertical_right(s: &Board, b: Block) -> (r: Option<Board>)
    requires
        s.wf(),
        seated(s@, b),
        b.ty == Cell::Vertical,
    ensures
        r is Some <==> move_ok(s@, b, Dir::Right),
        r matches Some(nb) ==> nb@ == apply_move(s@, b, Dir::Right) && nb.wf(),
{
    if b.x < 3 && s.get(b.x + 1, b.y) == Cell::Empty && s.get(b.x + 1, b.y + 1) == Cell::Empty {
        proof {
            assert(must_be_empty(b, Dir::Right, b.x as int + 1, b.y as int));
            assert(must_be_empty(b, Dir::Right, b.x as int + 1, b.y as int + 1));
            assert forall|x0: int, y0: int|
                0 <= x0 < 4 && 0 <= y0 < 5 && must_be_empty(b, Dir::Right, x0, y0)
                implies s@[idx(x0, y0)] == Cell::Empty by {}
            assert(move_ok(s@, b, Dir::Right));
        }
        let mut nb = s.dup();
        nb.set(b.x + 1, b.y, Cell::Vertical);
        nb.set(b.x + 1, b.y + 1, Cell::Vertical);
        nb.set(b.x, b.y, Cell::Empty);
        nb.set(b.x, b.y + 1, Cell::Empty);
        Some(nb)
    } else {
        proof {
            if b.x < 3 {
                assert(must_be_empty(b, Dir::Right, b.x as int + 1, b.y as int));
                assert(must_be_empty(b, Dir::Right, b.x as int + 1, b.y as int + 1));
            }
        }
        None
    }
}

/// The slides of a 1x1 pawn block.
fn try_move_pawn(s: &Board, b: Block, d: Dir) -> (r: Option<Board>)
    requires
        s.wf(),
        seated(s@, b),
        b.ty == Cell::Pawn,
    ensures
        r is Some <==> move_ok(s@, b, d),
        r matches Some(nb) ==> nb@ == apply_move(s@, b, d) && nb.wf(),
{
    match d {
        Dir::Up => try_pawn_up(s, b),
        Dir::Up2 => try_pawn_up2(s, b),
        Dir::Down => try_pawn_down(s, b),
        Dir::Down2 => try_pawn_down2(s, b),
        Dir::Left => try_pawn_left(s, b),
        Dir::Left2 => try_pawn_left2(s, b),
        Dir::Right => try_pawn_right(s, b),
        Dir::Right2 => try_pawn_right2(s, b),
    }
}

fn try_pawn_up(s: &Board, b: Block) -> (r: Option<Board>)
    requires
        s.wf(),
        seated(s@, b),
        b.ty == Cell::Pawn,
    ensures
        r is Some <==> move_ok(s@, b, Dir::Up),
        r matches Some(nb) ==> nb@ == apply_move(s@, b, Dir::Up) && nb.wf(),
{
    if b.y >= 1 && s.get(b.x, b.y - 1) == Cell::Empty {
        proof {
            assert(must_be_empty(b, Dir::Up, b.x as int, b.y as int - 1));
            assert forall|x0: int, y0: int|
                0 <= x0 < 4 && 0 <= y0 < 5 && must_be_empty(b, Dir::Up, x0, y0)
                implies s@[idx(x0, y0)] == Cell::Empty by {}
            assert(move_ok(s@, b, Dir::Up));
        }
        let mut nb = s.dup();
        nb.set(b.x, b.y - 1, Cell::Pawn);
        nb.set(b.x, b.y, Cell::Empty);
        Some(nb)
    } else {
        proof {
            if b.y >= 1 {
                assert(must_be_empty(b, Dir::Up, b.x as int, b.y as int - 1));
            }
        }
        None
    }
}

fn try_pawn_up2(s: &Board, b: Block) -> (r: Option<Board>)
    requires
        s.wf(),
        seated(s@, b),
        b.ty == Cell::Pawn,
    ensures
        r is Some <==> move_ok(s@, b, Dir::Up2),
        r matches Some(nb) ==> nb@ == apply_move(s@, b, Dir::Up2) && nb.wf(),
{
    if b.y >= 2 && s.get(b.x, b.y - 2) == Cell::Empty && s.get(b.x, b.y - 1) == Cell::Empty {
        proof {
            assert(must_be_empty(b, Dir::Up2, b.x as int, b.y as int - 2));
            assert(must_be_empty(b, Dir::Up2, b.x as int, b.y as int - 1));
            assert forall|x0: int, y0: int|
                0 <= x0 < 4 && 0 <= y0 < 5 && must_be_empty(b, Dir::Up2, x0, y0)
                implies s@[idx(x0, y0)] == Cell::Empty by {}
            assert(move_ok(s@, b, Dir::Up2));
        }
        let mut nb = s.dup();
        nb.set(b.x, b.y - 2, Cell::Pawn);
        nb.set(b.x, b.y, Cell::Empty);
        Some(nb)
    } else {
        proof {
            if b.y >= 2 {
                assert(must_be_empty(b, Dir::Up2, b.x as int, b.y as int - 2));
                assert(must_be_empty(b, Dir::Up2, b.x as int, b.y as int - 1));
            }
        }
        None
    }
}

fn try_pawn_down(s: &Board, b: Block) -> (r: Option<Board>)
    requires
        s.wf(),
        seated(s@, b),
        b.ty == Cell::Pawn,
    ensures
        r is Some <==> move_ok(s@, b, Dir::Down),
        r matches Some(nb) ==> nb@ == apply_move(s@, b, Dir::Down) && nb.wf(),
{
    if b.y < 4 && s.get(b.x, b.y + 1) == Cell::Empty {
        proof {
            assert(must_be_empty(b, Dir::Down, b.x as int, b.y as int + 1));
            assert forall|x0: int, y0: int|
                0 <= x0 < 4 && 0 <= y0 < 5 && must_be_empty(b, Dir::Down, x0, y0)
                implies s@[idx(x0, y0)] == Cell::Empty by {}
            assert(move_ok(s@, b, Dir::Down));
        }
        let mut nb = s.dup();
        nb.set(b.x, b.y + 1, Cell::Pawn);
        nb.set(b.x, b.y, Cell::Empty);
        Some(nb)
    } else {
        proof {
            if b.y < 4 {
                assert(must_be_empty(b, Dir::Down, b.x as int, b.y as int + 1));
            }
        }
        None
    }
}

fn try_pawn_down2(s: &Board, b: Block) -> (r: Option<Board>)
    requires
        s.wf(),
        seated(s@, b),
        b.ty == Cell::Pawn,
    ensures
        r is Some <==> move_ok(s@, b, Dir::Down2),
        r matches Some(nb) ==> nb@ == apply_move(s@, b, Dir::Down2) && nb.wf(),
{
    if b.y < 3 && s.get(b.x, b.y + 1) == Cell::Empty && s.get(b.x, b.y + 2) == Cell::Empty {
        proof {
            assert(must_be_empty(b, Dir::Down2, b.x as int, b.y as int + 1));
            assert(must_be_empty(b, Dir::Down2, b.x as int, b.y as int + 2));
            assert forall|x0: int, y0: int|
                0 <= x0 < 4 && 0 <= y0 < 5 && must_be_empty(b, Dir::Down2, x0, y0)
                implies s@[idx(x0, y0)] == Cell::Empty by {}
            assert(move_ok(s@, b, Dir::Down2));
        }
        let mut nb = s.dup();
        nb.set(b.x, b.y + 2, Cell::Pawn);
        nb.set(b.x, b.y, Cell::Empty);
        Some(nb)
    } else {
        proof {
            if b.y < 3 {
                assert(must_be_empty(b, Dir::Down2, b.x as int, b.y as int + 1));
                assert(must_be_empty(b, Dir::Down2, b.x as int, b.y as int + 2));
            }
        }
        None
    }
}

fn try_pawn_left(s: &Board, b: Block) -> (r: Option<Board>)
    requires
        s.wf(),
        seated(s@, b),
        b.ty == Cell::Pawn,
    ensures
        r is Some <==> move_ok(s@, b, Dir::Left),
        r matches Some(nb) ==> nb@ == apply_move(s@, b, Dir::Left) && nb.wf(),
{
    if b.x >= 1 && s.get(b.x - 1, b.y) == Cell::Empty {
        proof {
            assert(must_be_empty(b, Dir::Left, b.x as int - 1, b.y as int));
            assert forall|x0: int, y0: int|
                0 <= x0 < 4 && 0 <= y0 < 5 && must_be_empty(b, Dir::Left, x0, y0)
                implies s@[idx(x0, y0)] == Cell::Empty by {}
            assert(move_ok(s@, b, Dir::Left));
        }
        let mut nb = s.dup();
        nb.set(b.x - 1, b.y, Cell::Pawn);
        nb.set(b.x, b.y, Cell::Empty);
        Some(nb)
    } else {
        proof {
            if b.x >= 1 {
                assert(must_be_empty(b, Dir::Left, b.x as int - 1, b.y as int));
            }
        }
        None
    }
}

fn try_pawn_left2(s: &Board, b: Block) -> (r: Option<Board>)
    requires
        s.wf(),
        seated(s@, b),
        b.ty == Cell::Pawn,
    ensures
        r is Some <==> move_ok(s@, b, Dir::Left2),
        r matches Some(nb) ==> nb@ == apply_move(s@, b, Dir::Left2) && nb.wf(),
{
    if b.x >= 2 && s.get(b.x - 2, b.y) == Cell::Empty && s.get(b.x - 1, b.y) == Cell::Empty {
        proof {
            assert(must_be_empty(b, Dir::Left2, b.x as int - 2, b.y as int));
            assert(must_be_empty(b, Dir::Left2, b.x as int - 1, b.y as int));
            assert forall|x0: int, y0: int|
                0 <= x0 < 4 && 0 <= y0 < 5 && must_be_empty(b, Dir::Left2, x0, y0)
                implies s@[idx(x0, y0)] == Cell::Empty by {}
            assert(move_ok(s@, b, Dir::Left2));
        }
        let mut nb = s.dup();
        nb.set(b.x - 2, b.y, Cell::Pawn);
        nb.set(b.x, b.y, Cell::Empty);
        Some(nb)
    } else {
        proof {
            if b.x >= 2 {
                assert(must_be_empty(b, Dir::Left2, b.x as int - 2, b.y as int));
                assert(must_be_empty(b, Dir::Left2, b.x as int - 1, b.y as int));
            }
        }
        None
    }
}

fn try_pawn_right(s: &Board, b: Block) -> (r: Option<Board>)
    requires
        s.wf(),
        seated(s@, b),
        b.ty == Cell::Pawn,
    ensures
        r is Some <==> move_ok(s@, b, Dir::Right),
        r matches Some(nb) ==> nb@ == apply_move(s@, b, Dir::Right) && nb.wf(),
{
    if b.x < 3 && s.get(b.x + 1, b.y) == Cell::Empty {
        proof {
            assert(must_be_empty(b, Dir::Right, b.x as int + 1, b.y as int));
            assert forall|x0: int, y0: int|
                0 <= x0 < 4 && 0 <= y0 < 5 && must_be_empty(b, Dir::Right, x0, y0)
                implies s@[idx(x0, y0)] == Cell::Empty by {}
            assert(move_ok(s@, b, Dir::Right));
        }
        let mut nb = s.dup();
        nb.set(b.x + 1, b.y, Cell::Pawn);
        nb.set(b.x, b.y, Cell::Empty);
        Some(nb)
    } else {
        proof {
            if b.x < 3 {
                assert(must_be_empty(b, Dir::Right, b.x as int + 1, b.y as int));
            }
        }
        None
    }
}

fn try_pawn_right2(s: &Board, b: Block) -> (r: Option<Board>)
    requires
        s.wf(),
        seated(s@, b),
        b.ty == Cell::Pawn,
    ensures
        r is Some <==> move_ok(s@, b, Dir::Right2),
        r matches Some(nb) ==> nb@ == apply_move(s@, b, Dir::Right2) && nb.wf(),
{
    if b.x < 2 && s.get(b.x + 1, b.y) == Cell::Empty && s.get(b.x + 2, b.y) == Cell::Empty {
        proof {
            assert(must_be_empty(b, Dir::Right2, b.x as int + 1, b.y as int));
            assert(must_be_empty(b, Dir::Right2, b.x as int + 2, b.y as int));
            assert forall|x0: int, y0: int|
                0 <= x0 < 4 && 0 <= y0 < 5 && must_be_empty(b, Dir::Right2, x0, y0)
                implies s@[idx(x0, y0)] == Cell::Empty by {}
            assert(move_ok(s@, b, Dir::Right2));
        }
        let mut nb = s.dup();
        nb.set(b.x + 2, b.y, Cell::Pawn);
        nb.set(b.x, b.y, Cell::Empty);
        Some(nb)
    } else {
        proof {
            if b.x < 2 {
                assert(must_be_empty(b, Dir::Right2, b.x as int + 1, b.y as int));
                assert(must_be_empty(b, Dir::Right2, b.x as int + 2, b.y as int));
            }
        }
        None
    }
}

/// A board with exactly two empty cells keeps exactly two empty cells across
/// every legal slide.
pub proof fn lemma_move_keeps_two_empties(s: Seq<Cell>, b: Block, d: Dir)
    requires
        wf_board(s),
        move_ok(s, b, d),
        count_cell(s, Cell::Empty) == 2,
    ensures
        count_cell(apply_move(s, b, d), Cell::Empty) == 2,
{
    lemma_move_effect(s, b, d);
}

/// A legal slide never changes the total number of occupied cells.
pub proof fn lemma_move_preserves_occupied(s: Seq<Cell>, b: Block, d: Dir)
    requires
        wf_board(s),
        move_ok(s, b, d),
    ensures
        count_cell(apply_move(s, b, d), Cell::Empty) == count_cell(s, Cell::Empty),
        apply_move(s, b, d).len() == s.len(),
{
    lemma_move_effect(s, b, d);
}

} // verus!
