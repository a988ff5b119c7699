use vstd::prelude::*;

use crate::board::Board;
use crate::board::Block;
use crate::board::anchor_ok;
use crate::board::Cell;
use crate::board::count_cell;
use crate::board::idx;
use crate::board::seated;
use crate::error::Error;
use crate::moves::Dir;
use crate::moves::apply_move;
use crate::moves::lemma_move_effect;
use crate::moves::move_ok;
use crate::moves::try_move;

verus! {

/// Some block of `bs` occupies cell (x, y).
pub open spec fn covered_by(bs: Seq<Block>, x: int, y: int) -> bool {
    exists|i: int| 0 <= i < bs.len() && #[trigger] bs[i].covers(x, y)
}

/// How many blocks of `bs` are generals.
pub open spec fn count_general(bs: Seq<Block>) -> nat
    decreases bs.len(),
{
    if bs.len() == 0 {
        0
    } else {
        count_general(bs.drop_last()) + if bs.last().ty == Cell::General {
            1nat
        } else {
            0nat
        }
    }
}

/// Appending a block extends the covered cells by exactly its footprint.
proof fn lemma_covered_push(bs: Seq<Block>, b: Block)
    ensures
        forall|x: int, y: int| #[trigger]
            covered_by(bs.push(b), x, y) <==> (covered_by(bs, x, y) || b.covers(x, y)),
{
    assert forall|x: int, y: int|
        #[trigger] covered_by(bs.push(b), x, y) <==> (covered_by(bs, x, y) || b.covers(x, y)) by {
        if covered_by(bs, x, y) {
            let i = choose|i: int| 0 <= i < bs.len() && #[trigger] bs[i].covers(x, y);
            assert(bs.push(b)[i].covers(x, y));
        }
        if b.covers(x, y) {
            assert(bs.push(b)[bs.len() as int].covers(x, y));
        }
        if covered_by(bs.push(b), x, y) {
            let i = choose|i: int|
                0 <= i < bs.push(b).len() && #[trigger] bs.push(b)[i].covers(x, y);
            if i < bs.len() {
                assert(bs[i].covers(x, y));
            }
        }
    }
}

/// One scan step extends a prefix count by the scanned cell.
proof fn lemma_count_take_step(s: Seq<Cell>, p: int, c: Cell)
    requires
        0 <= p < s.len(),
    ensures
        count_cell(s.take(p + 1), c) == count_cell(s.take(p), c) + if s[p] == c {
            1int
        } else {
            0int
        },
{
    assert(s.take(p + 1).drop_last() =~= s.take(p));
    assert(s.take(p + 1).last() == s[p]);
}

/// One scan step extends a prefix general count by the scanned block.
proof fn lemma_general_take_step(bs: Seq<Block>, i: int)
    requires
        0 <= i < bs.len(),
    ensures
        count_general(bs.take(i + 1)) == count_general(bs.take(i)) + if bs[i].ty
            == Cell::General {
            1int
        } else {
            0int
        },
{
    assert(bs.take(i + 1).drop_last() =~= bs.take(i));
    assert(bs.take(i + 1).last() == bs[i]);
}


/// The state of the row-major scan that reads blocks off a grid: the blocks
/// found so far, the cells their footprints claimed, the empty cells found so
/// far, and whether every claim so far was sound.
pub struct Scan {
    pub blocks: Seq<Block>,
    pub vis: Seq<bool>,
    pub empties: Seq<(usize, usize)>,
    pub ok: bool,
}

/// The row-major indices that a block of type `t` anchored at index `p`
/// claims.
pub open spec fn claim_of(t: Cell, p: int) -> Seq<int> {
    match t {
        Cell::General => seq![p, p + 1, p + 4, p + 5],
        Cell::Horizontal => seq![p, p + 1],
        Cell::Vertical => seq![p, p + 4],
        Cell::Pawn => seq![p],
        Cell::Empty => seq![],
    }
}

/// Whether a block of type `t` anchored at index `p` can be claimed: its
/// footprint lies inside the grid, holds `t` in every cell, and no cell of it
/// is claimed yet.
pub open spec fn scan_claim_ok(s: Seq<Cell>, vis: Seq<bool>, t: Cell, p: int) -> bool {
    &&& anchor_ok(t, p % 4, p / 4)
    &&& forall|k: int|
        0 <= k < claim_of(t, p).len() ==> s[#[trigger] claim_of(t, p)[k]] == t && !vis[claim_of(
            t,
            p,
        )[k]]
}

/// One step of the scan at index `p`: an empty cell is recorded, a claimed
/// cell is passed over, an unclaimed non-empty cell is read as an anchor and
/// its footprint claimed, and a claim that cannot be made soundly marks the
/// scan failed.
pub open spec fn scan_step(s: Seq<Cell>, st: Scan, p: int) -> Scan {
    let c = s[p];
    if c == Cell::Empty {
        Scan {
            blocks: st.blocks,
            vis: st.vis,
            empties: st.empties.push(((p % 4) as usize, (p / 4) as usize)),
            ok: st.ok,
        }
    } else if st.vis[p] {
        st
    } else if scan_claim_ok(s, st.vis, c, p) {
        Scan {
            blocks: st.blocks.push(Block { ty: c, x: (p % 4) as usize, y: (p / 4) as usize }),
            vis: Seq::new(20, |i: int| st.vis[i] || claim_of(c, p).contains(i)),
            empties: st.empties,
            ok: st.ok,
        }
    } else {
        Scan { blocks: st.blocks, vis: st.vis, empties: st.empties, ok: false }
    }
}

/// The scan after the first `p` cells.
pub open spec fn scan_upto(s: Seq<Cell>, p: int) -> Scan
    decreases p,
{
    if p <= 0 {
        Scan { blocks: seq![], vis: Seq::new(20, |i: int| false), empties: seq![], ok: true }
    } else {
        scan_step(s, scan_upto(s, p - 1), p - 1)
    }
}

/// The completed scan of a grid.
pub open spec fn scan_of(s: Seq<Cell>) -> Scan {
    scan_upto(s, 20)
}

/// A grid is structurally valid when the scan claims every block soundly and
/// finds the fixed layout: 10 blocks, exactly one general, exactly two empty
/// cells.
pub open spec fn valid_board(s: Seq<Cell>) -> bool {
    &&& scan_of(s).ok
    &&& scan_of(s).blocks.len() == 10
    &&& count_general(scan_of(s).blocks) == 1
    &&& scan_of(s).empties.len() == 2
}

/// `next` is reached from `prev` by one legal slide of a block that the scan
/// reads off `prev`.
pub open spec fn scan_move(prev: Seq<Cell>, next: Seq<Cell>) -> bool {
    exists|i: int, d: Dir|
        0 <= i < scan_of(prev).blocks.len() && #[trigger] move_ok(prev, scan_of(prev).blocks[i], d)
            && next == apply_move(prev, scan_of(prev).blocks[i], d)
}


/// The result of trying one slide: one board when it is legal, none
/// otherwise.
pub open spec fn dir_move_of(s: Seq<Cell>, b: Block, d: Dir) -> Seq<Seq<Cell>> {
    if move_ok(s, b, d) {
        seq![apply_move(s, b, d)]
    } else {
        seq![]
    }
}

/// The boards one block's slides generate, in the generator's fixed trial
/// order: up, up by two, down, down by two, left, left by two, right, right
/// by two.
pub open spec fn block_moves(s: Seq<Cell>, b: Block) -> Seq<Seq<Cell>> {
    dir_move_of(s, b, Dir::Up) + dir_move_of(s, b, Dir::Up2) + dir_move_of(s, b, Dir::Down)
        + dir_move_of(s, b, Dir::Down2) + dir_move_of(s, b, Dir::Left) + dir_move_of(
        s,
        b,
        Dir::Left2,
    ) + dir_move_of(s, b, Dir::Right) + dir_move_of(s, b, Dir::Right2)
}

/// The boards a block list generates, block by block in list order.
pub open spec fn all_moves(s: Seq<Cell>, bs: Seq<Block>) -> Seq<Seq<Cell>>
    decreases bs.len(),
{
    if bs.len() == 0 {
        Seq::empty()
    } else {
        all_moves(s, bs.drop_last()) + block_moves(s, bs.last())
    }
}

/// The grids of a list of boards.
pub open spec fn views_of(rs: Seq<Board>) -> Seq<Seq<Cell>> {
    Seq::new(rs.len(), |j: int| rs[j]@)
}

/// One more block extends the generated boards by exactly its own.
proof fn lemma_all_moves_take_step(s: Seq<Cell>, bs: Seq<Block>, i: int)
    requires
        0 <= i < bs.len(),
    ensures
        all_moves(s, bs.take(i + 1)) == all_moves(s, bs.take(i)) + block_moves(s, bs[i]),
{
    assert(bs.take(i + 1).drop_last() =~= bs.take(i));
    assert(bs.take(i + 1).last() == bs[i]);
}

/// A failed claim taints the rest of the scan.
proof fn lemma_scan_err_persists(s: Seq<Cell>, p: int, q: int)
    requires
        0 <= p <= q,
        !scan_upto(s, p).ok,
    ensures
        !scan_upto(s, q).ok,
    decreases q - p,
{
    if p < q {
        lemma_scan_err_persists(s, p, q - 1);
    }
}

/// A board together with the blocks and empty cells read off it by the
/// row-major scan.
pub struct Game {
    pub blocks: Vec<Block>,
    pub state: Board,
    pub empty_cell: Vec<(usize, usize)>,
}

impl Game {
    /// The grid is well-sized and every listed block really sits on it.
    pub open spec fn wf(&self) -> bool {
        &&& self.state.wf()
        &&& forall|i: int|
            0 <= i < self.blocks@.len() ==> seated(self.state@, #[trigger] self.blocks@[i])
    }

    /// The validating extraction: scan the grid in row-major order, read one
    /// block off each unclaimed non-empty cell, and check the structural
    /// invariants: footprints in bounds, uniform in type and unclaimed,
    /// exactly 10 blocks, exactly one general, exactly two empty cells.
    /// On success the blocks cover exactly the non-empty cells, so painting
    /// them onto an empty grid reproduces the board.
    #[verifier::rlimit(100)]
    pub fn new(state: &Board) -> (r: Result<Game, Error>)
        requires
            state.wf(),
        ensures
            r matches Ok(g) ==> {
                &&& g.wf()
                &&& g.state@ == state@
                &&& g.blocks@.len() == 10
                &&& count_general(g.blocks@) == 1
                &&& forall|x: int, y: int|
                    0 <= x < 4 && 0 <= y < 5 ==> (state@[idx(x, y)] != Cell::Empty
                        <==> covered_by(g.blocks@, x, y))
                &&& g.empty_cell@.len() == 2
                &&& count_cell(state@, Cell::Empty) == 2
                &&& forall|k: int|
                    0 <= k < 2 ==> (#[trigger] g.empty_cell@[k].0 < 4 && g.empty_cell@[k].1 < 5
                        && state@[idx(g.empty_cell@[k].0 as int, g.empty_cell@[k].1 as int)]
                        == Cell::Empty)
                &&& idx(g.empty_cell@[0].0 as int, g.empty_cell@[0].1 as int) < idx(
                    g.empty_cell@[1].0 as int,
                    g.empty_cell@[1].1 as int,
                )
                &&& g.blocks@ == scan_of(state@).blocks
                &&& g.empty_cell@ == scan_of(state@).empties
            },
            r is Ok <==> valid_board(state@),
            r matches Err(e) ==> e == Error::InvalidBoard,
    {
        let ghost s = state@;
        let mut blocks: Vec<Block> = Vec::new();
        let mut empties: Vec<(usize, usize)> = Vec::new();
        let mut vis: Vec<bool> = Vec::new();
        while vis.len() < 20
            invariant
                vis@.len() <= 20,
                forall|k: int| 0 <= k < vis@.len() ==> !vis@[k],
            decreases 20 - vis@.len(),
        {
            vis.push(false);
        }
        proof {
            assert(vis@ =~= scan_upto(s, 0).vis);
        }
        let mut p: usize = 0;
        while p < 20
            invariant
                p <= 20,
                state.wf(),
                s == state@,
                vis@.len() == 20,
                forall|i: int| 0 <= i < blocks@.len() ==> seated(s, #[trigger] blocks@[i]),
                forall|x: int, y: int|
                    0 <= x < 4 && 0 <= y < 5 ==> (vis@[idx(x, y)] <==> covered_by(
                        blocks@,
                        x,
                        y,
                    )),
                forall|x: int, y: int|
                    0 <= x < 4 && 0 <= y < 5 && idx(x, y) < p ==> (s[idx(x, y)] != Cell::Empty
                        ==> vis@[idx(x, y)]),
                empties@.len() == count_cell(s.take(p as int), Cell::Empty),
                forall|k: int|
                    0 <= k < empties@.len() ==> (#[trigger] empties@[k].0 < 4 && empties@[k].1 < 5
                        && s[idx(empties@[k].0 as int, empties@[k].1 as int)] == Cell::Empty),
                forall|k: int|
                    0 <= k < empties@.len() ==> idx(
                        #[trigger] empties@[k].0 as int,
                        empties@[k].1 as int,
                    ) < p,
                forall|k1: int, k2: int|
                    0 <= k1 < k2 < empties@.len() ==> idx(
                        empties@[k1].0 as int,
                        empties@[k1].1 as int,
                    ) < idx(empties@[k2].0 as int, empties@[k2].1 as int),
                scan_upto(s, p as int).ok,
                blocks@ == scan_upto(s, p as int).blocks,
                vis@ == scan_upto(s, p as int).vis,
                empties@ == scan_upto(s, p as int).empties,
            decreases 20 - p,
        {
            let x = p % 4;
            let y = p / 4;
            proof {
                assert(idx(x as int, y as int) == p as int);
            }
            let c = state.get(x, y);
            let ghost st = scan_upto(s, p as int);
            proof {
                lemma_count_take_step(s, p as int, Cell::Empty);
                assert(p as int % 4 == x as int);
                assert(p as int / 4 == y as int);
                assert(scan_upto(s, p as int + 1) == scan_step(s, st, p as int));
            }
            if c == Cell::Empty {
                empties.push((x, y));
            } else if vis[p] {
                // claimed by a block read off an earlier anchor
            } else {
                let ghost bs0 = blocks@;
                let ghost vis0 = vis@;
                let b: Block;
                if c == Cell::General {
                    if x + 1 >= 4 || y + 1 >= 5 {
                        proof {
                            assert(claim_of(Cell::General, p as int)[0] == p as int);
                            assert(claim_of(Cell::General, p as int)[1] == p as int + 1);
                            assert(claim_of(Cell::General, p as int)[2] == p as int + 4);
                            assert(claim_of(Cell::General, p as int)[3] == p as int + 5);
                            assert(!scan_claim_ok(s, st.vis, Cell::General, p as int));
                            assert(!scan_upto(s, p as int + 1).ok);
                            lemma_scan_err_persists(s, p as int + 1, 20);
                        }
                        return Err(Error::InvalidBoard);
                    }
                    if state.get(x + 1, y) != Cell::General || state.get(x, y + 1)
                        != Cell::General || state.get(x + 1, y + 1) != Cell::General {
                        proof {
                            assert(claim_of(Cell::General, p as int)[0] == p as int);
                            assert(claim_of(Cell::General, p as int)[1] == p as int + 1);
                            assert(claim_of(Cell::General, p as int)[2] == p as int + 4);
                            assert(claim_of(Cell::General, p as int)[3] == p as int + 5);
                            assert(!scan_claim_ok(s, st.vis, Cell::General, p as int));
                            assert(!scan_upto(s, p as int + 1).ok);
                            lemma_scan_err_persists(s, p as int + 1, 20);
                        }
                        return Err(Error::InvalidBoard);
                    }
                    if vis[p + 1] || vis[p + 4] || vis[p + 5] {
                        proof {
                            assert(claim_of(Cell::General, p as int)[0] == p as int);
                            assert(claim_of(Cell::General, p as int)[1] == p as int + 1);
                            assert(claim_of(Cell::General, p as int)[2] == p as int + 4);
                            assert(claim_of(Cell::General, p as int)[3] == p as int + 5);
                            assert(!scan_claim_ok(s, st.vis, Cell::General, p as int));
                            assert(!scan_upto(s, p as int + 1).ok);
                            lemma_scan_err_persists(s, p as int + 1, 20);
                        }
                        return Err(Error::InvalidBoard);
                    }
                    b = Block { ty: Cell::General, x, y };
                    proof {
                        assert(claim_of(Cell::General, p as int) =~= seq![p as int, p as int + 1, p as int + 4, p as int + 5]);
                        assert(scan_claim_ok(s, st.vis, Cell::General, p as int));
                    }
                    blocks.push(b);
                    vis.set(p, true);
                    vis.set(p + 1, true);
                    vis.set(p + 4, true);
                    vis.set(p + 5, true);
                    proof {
                        assert(vis@ =~= Seq::new(20, |i: int| vis0[i] || claim_of(Cell::General, p as int).contains(i)));
                    }
                } else if c == Cell::Horizontal {
                    if x + 1 >= 4 {
                        proof {
                            assert(claim_of(Cell::Horizontal, p as int)[0] == p as int);
                            assert(claim_of(Cell::Horizontal, p as int)[1] == p as int + 1);
                            assert(!scan_claim_ok(s, st.vis, Cell::Horizontal, p as int));
                            assert(!scan_upto(s, p as int + 1).ok);
                            lemma_scan_err_persists(s, p as int + 1, 20);
                        }
                        return Err(Error::InvalidBoard);
                    }
                    if state.get(x + 1, y) != Cell::Horizontal {
                        proof {
                            assert(claim_of(Cell::Horizontal, p as int)[0] == p as int);
                            assert(claim_of(Cell::Horizontal, p as int)[1] == p as int + 1);
                            assert(!scan_claim_ok(s, st.vis, Cell::Horizontal, p as int));
                            assert(!scan_upto(s, p as int + 1).ok);
                            lemma_scan_err_persists(s, p as int + 1, 20);
                        }
                        return Err(Error::InvalidBoard);
                    }
                    if vis[p + 1] {
                        proof {
                            assert(claim_of(Cell::Horizontal, p as int)[0] == p as int);
                            assert(claim_of(Cell::Horizontal, p as int)[1] == p as int + 1);
                            assert(!scan_claim_ok(s, st.vis, Cell::Horizontal, p as int));
                            assert(!scan_upto(s, p as int + 1).ok);
                            lemma_scan_err_persists(s, p as int + 1, 20);
                        }
                        return Err(Error::InvalidBoard);
                    }
                    b = Block { ty: Cell::Horizontal, x, y };
                    proof {
                        assert(claim_of(Cell::Horizontal, p as int) =~= seq![p as int, p as int + 1]);
                        assert(scan_claim_ok(s, st.vis, Cell::Horizontal, p as int));
                    }
                    blocks.push(b);
                    vis.set(p, true);
                    vis.set(p + 1, true);
                    proof {
                        assert(vis@ =~= Seq::new(20, |i: int| vis0[i] || claim_of(Cell::Horizontal, p as int).contains(i)));
                    }
                } else if c == Cell::Vertical {
                    if y + 1 >= 5 {
                        proof {
                            assert(claim_of(Cell::Vertical, p as int)[0] == p as int);
                            assert(claim_of(Cell::Vertical, p as int)[1] == p as int + 4);
                            assert(!scan_claim_ok(s, st.vis, Cell::Vertical, p as int));
                            assert(!scan_upto(s, p as int + 1).ok);
                            lemma_scan_err_persists(s, p as int + 1, 20);
                        }
                        return Err(Error::InvalidBoard);
                    }
                    if state.get(x, y + 1) != Cell::Vertical {
                        proof {
                            assert(claim_of(Cell::Vertical, p as int)[0] == p as int);
                            assert(claim_of(Cell::Vertical, p as int)[1] == p as int + 4);
                            assert(!scan_claim_ok(s, st.vis, Cell::Vertical, p as int));
                            assert(!scan_upto(s, p as int + 1).ok);
                            lemma_scan_err_persists(s, p as int + 1, 20);
                        }
                        return Err(Error::InvalidBoard);
                    }
                    if vis[p + 4] {
                        proof {
                            assert(claim_of(Cell::Vertical, p as int)[0] == p as int);
                            assert(claim_of(Cell::Vertical, p as int)[1] == p as int + 4);
                            assert(!scan_claim_ok(s, st.vis, Cell::Vertical, p as int));
                            assert(!scan_upto(s, p as int + 1).ok);
                            lemma_scan_err_persists(s, p as int + 1, 20);
                        }
                        return Err(Error::InvalidBoard);
                    }
                    b = Block { ty: Cell::Vertical, x, y };
                    proof {
                        assert(claim_of(Cell::Vertical, p as int) =~= seq![p as int, p as int + 4]);
                        assert(scan_claim_ok(s, st.vis, Cell::Vertical, p as int));
                    }
                    blocks.push(b);
                    vis.set(p, true);
                    vis.set(p + 4, true);
                    proof {
                        assert(vis@ =~= Seq::new(20, |i: int| vis0[i] || claim_of(Cell::Vertical, p as int).contains(i)));
                    }
                } else {
                    b = Block { ty: Cell::Pawn, x, y };
                    proof {
                        assert(claim_of(Cell::Pawn, p as int) =~= seq![p as int]);
                        assert(scan_claim_ok(s, st.vis, Cell::Pawn, p as int));
                    }
                    blocks.push(b);
                    vis.set(p, true);
                    proof {
                        assert(claim_of(Cell::Pawn, p as int)[0] == p as int);
                        assert(vis@ =~= Seq::new(20, |i: int| vis0[i] || claim_of(Cell::Pawn, p as int).contains(i)));
                    }
                }
                proof {
                    assert(seated(s, b));
                    lemma_covered_push(bs0, b);
                    assert forall|x0: int, y0: int| 0 <= x0 < 4 && 0 <= y0 < 5 implies (vis@[idx(
                        x0,
                        y0,
                    )] <==> covered_by(blocks@, x0, y0)) by {
                        assert(vis@[idx(x0, y0)] == (vis0[idx(x0, y0)] || b.covers(x0, y0)));
                    }
                    assert(vis@ == Seq::new(20, |i: int| vis0[i] || claim_of(c, p as int).contains(i)));
                    assert(blocks@ == st.blocks.push(b));
                    assert(blocks@ == scan_upto(s, p as int + 1).blocks);
                    assert(vis@ == scan_upto(s, p as int + 1).vis);
                    assert(scan_upto(s, p as int + 1).ok);
                }
            }
            p = p + 1;
        }
        proof {
            assert(s.take(20) =~= s);
        }
        if blocks.len() != 10 {
            return Err(Error::InvalidBoard);
        }
        if empties.len() != 2 {
            return Err(Error::InvalidBoard);
        }
        let mut gc: usize = 0;
        let mut i: usize = 0;
        while i < 10
            invariant
                blocks@.len() == 10,
                i <= 10,
                gc <= i,
                gc == count_general(blocks@.take(i as int)),
            decreases 10 - i,
        {
            proof {
                lemma_general_take_step(blocks@, i as int);
            }
            if blocks[i].ty == Cell::General {
                gc = gc + 1;
            }
            i = i + 1;
        }
        proof {
            assert(blocks@.take(10) =~= blocks@);
        }
        if gc != 1 {
            return Err(Error::InvalidBoard);
        }
        Ok(Game { blocks, state: state.dup(), empty_cell: empties })
    }

    /// The fast extraction used on boards derived from a validated start
    /// state: the same row-major scan without the structural checks. A
    /// malformed footprint is skipped rather than reported; on any board the
    /// blocks read off are really seated.
    pub fn new_unchecked(state: &Board) -> (g: Game)
        requires
            state.wf(),
        ensures
            g.wf(),
            g.state@ == state@,
            g.blocks@ == scan_of(state@).blocks,
            g.empty_cell@ == scan_of(state@).empties,
    {
        let ghost s = state@;
        let mut blocks: Vec<Block> = Vec::new();
        let mut empties: Vec<(usize, usize)> = Vec::new();
        let mut vis: Vec<bool> = Vec::new();
        while vis.len() < 20
            invariant
                vis@.len() <= 20,
                forall|k: int| 0 <= k < vis@.len() ==> !vis@[k],
            decreases 20 - vis@.len(),
        {
            vis.push(false);
        }
        proof {
            assert(vis@ =~= scan_upto(s, 0).vis);
        }
        let mut p: usize = 0;
        while p < 20
            invariant
                p <= 20,
                state.wf(),
                s == state@,
                vis@.len() == 20,
                forall|i: int| 0 <= i < blocks@.len() ==> seated(s, #[trigger] blocks@[i]),
                blocks@ == scan_upto(s, p as int).blocks,
                vis@ == scan_upto(s, p as int).vis,
                empties@ == scan_upto(s, p as int).empties,
            decreases 20 - p,
        {
            let x = p % 4;
            let y = p / 4;
            let ghost st = scan_upto(s, p as int);
            proof {
                assert(idx(x as int, y as int) == p as int);
                assert(p as int % 4 == x as int);
                assert(p as int / 4 == y as int);
                assert(scan_upto(s, p as int + 1) == scan_step(s, st, p as int));
            }
            let c = state.get(x, y);
            if c == Cell::Empty {
                empties.push((x, y));
            } else if vis[p] {
                // claimed by a block read off an earlier anchor
            } else if c == Cell::General {
                proof {
                    assert(claim_of(Cell::General, p as int) =~= seq![p as int, p as int + 1, p as int + 4, p as int + 5]);
                }
                if x + 1 < 4 && y + 1 < 5 && state.get(x + 1, y) == Cell::General && state.get(
                    x,
                    y + 1,
                ) == Cell::General && state.get(x + 1, y + 1) == Cell::General && !vis[p + 1]
                    && !vis[p + 4] && !vis[p + 5] {
                    let b = Block { ty: Cell::General, x, y };
                    let ghost vis0 = vis@;
                    proof {
                        assert(seated(s, b));
                        assert(scan_claim_ok(s, st.vis, Cell::General, p as int));
                    }
                    blocks.push(b);
                    vis.set(p, true);
                    vis.set(p + 1, true);
                    vis.set(p + 4, true);
                    vis.set(p + 5, true);
                    proof {
                        assert(vis@ =~= Seq::new(20, |i: int| vis0[i] || claim_of(Cell::General, p as int).contains(i)));
                    }
                } else {
                    proof {
                        assert(!scan_claim_ok(s, st.vis, Cell::General, p as int));
                    }
                }
            } else if c == Cell::Horizontal {
                proof {
                    assert(claim_of(Cell::Horizontal, p as int) =~= seq![p as int, p as int + 1]);
                }
                if x + 1 < 4 && state.get(x + 1, y) == Cell::Horizontal && !vis[p + 1] {
                    let b = Block { ty: Cell::Horizontal, x, y };
                    let ghost vis0 = vis@;
                    proof {
                        assert(seated(s, b));
                        assert(scan_claim_ok(s, st.vis, Cell::Horizontal, p as int));
                    }
                    blocks.push(b);
                    vis.set(p, true);
                    vis.set(p + 1, true);
                    proof {
                        assert(vis@ =~= Seq::new(20, |i: int| vis0[i] || claim_of(Cell::Horizontal, p as int).contains(i)));
                    }
                } else {
                    proof {
                        assert(!scan_claim_ok(s, st.vis, Cell::Horizontal, p as int));
                    }
                }
            } else if c == Cell::Vertical {
                proof {
                    assert(claim_of(Cell::Vertical, p as int) =~= seq![p as int, p as int + 4]);
                }
                if y + 1 < 5 && state.get(x, y + 1) == Cell::Vertical && !vis[p + 4] {
                    let b = Block { ty: Cell::Vertical, x, y };
                    let ghost vis0 = vis@;
                    proof {
                        assert(seated(s, b));
                        assert(scan_claim_ok(s, st.vis, Cell::Vertical, p as int));
                    }
                    blocks.push(b);
                    vis.set(p, true);
                    vis.set(p + 4, true);
                    proof {
                        assert(vis@ =~= Seq::new(20, |i: int| vis0[i] || claim_of(Cell::Vertical, p as int).contains(i)));
                    }
                } else {
                    proof {
                        assert(!scan_claim_ok(s, st.vis, Cell::Vertical, p as int));
                    }
                }
            } else {
                let b = Block { ty: Cell::Pawn, x, y };
                let ghost vis0 = vis@;
                proof {
                    assert(seated(s, b));
                    assert(claim_of(Cell::Pawn, p as int) =~= seq![p as int]);
                    assert(scan_claim_ok(s, st.vis, Cell::Pawn, p as int));
                }
                blocks.push(b);
                vis.set(p, true);
                proof {
                    assert(claim_of(Cell::Pawn, p as int)[0] == p as int);
                    assert(vis@ =~= Seq::new(20, |i: int| vis0[i] || claim_of(Cell::Pawn, p as int).contains(i)));
                }
            }
            p = p + 1;
        }
        Game { blocks, state: state.dup(), empty_cell: empties }
    }

    /// Append to `ret` every board reachable from this one by sliding one of
    /// its blocks once: each appended board is the result of a legal slide,
    /// and every legal slide of a listed block is appended.
    pub fn next_nodes(&self, ret: &mut Vec<Board>)
        requires
            self.wf(),
        ensures
            final(ret)@.len() >= old(ret)@.len(),
            forall|j: int| 0 <= j < old(ret)@.len() ==> final(ret)@[j] == old(ret)@[j],
            forall|j: int|
                old(ret)@.len() <= j < final(ret)@.len() ==> generated_ok(
                    self.state@,
                    self.blocks@,
                    #[trigger] final(ret)@[j],
                ),
            forall|i: int, d: Dir|
                0 <= i < self.blocks@.len() && #[trigger] move_ok(self.state@, self.blocks@[i], d)
                    ==> holds_board(
                    final(ret)@,
                    old(ret)@.len() as int,
                    apply_move(self.state@, self.blocks@[i], d),
                ),
            views_of(final(ret)@) == views_of(old(ret)@) + all_moves(self.state@, self.blocks@),
    {
        let ghost base = ret@.len() as int;
        proof {
            assert(self.blocks@.take(0) =~= Seq::<Block>::empty());
            assert(views_of(ret@) =~= views_of(ret@) + all_moves(self.state@, self.blocks@.take(0)));
        }
        let mut i: usize = 0;
        while i < self.blocks.len()
            invariant
                self.wf(),
                i <= self.blocks@.len(),
                ret@.len() >= base,
                base >= 0,
                base == old(ret)@.len(),
                forall|j: int| 0 <= j < base ==> ret@[j] == old(ret)@[j],
                forall|j: int|
                    base <= j < ret@.len() ==> generated_ok(
                        self.state@,
                        self.blocks@,
                        #[trigger] ret@[j],
                    ),
                forall|ii: int, d: Dir|
                    0 <= ii < i && #[trigger] move_ok(self.state@, self.blocks@[ii], d)
                        ==> holds_board(ret@, base, apply_move(self.state@, self.blocks@[ii], d)),
                views_of(ret@) == views_of(old(ret)@) + all_moves(
                    self.state@,
                    self.blocks@.take(i as int),
                ),
            decreases self.blocks@.len() - i,
        {
            let ghost ret0 = ret@;
            let b = self.blocks[i];
            push_block_moves(&self.state, b, ret);
            proof {
                lemma_views_step(
                    self.state@,
                    self.blocks@,
                    i as int,
                    views_of(old(ret)@),
                    views_of(ret0),
                    views_of(ret@),
                );
                lemma_next_transfer(
                    self.state@,
                    self.blocks@,
                    b,
                    i as int,
                    base,
                    ret0,
                    ret@,
                );
            }
            i = i + 1;
        }
        proof {
            assert(self.blocks@.take(self.blocks@.len() as int) =~= self.blocks@);
            assert(views_of(ret@) =~= views_of(old(ret)@) + all_moves(self.state@, self.blocks@));
        }
    }
}


/// One loop step extends the generated views by exactly the block's own.
proof fn lemma_views_step(
    state: Seq<Cell>,
    bs: Seq<Block>,
    i: int,
    base_views: Seq<Seq<Cell>>,
    v0: Seq<Seq<Cell>>,
    v1: Seq<Seq<Cell>>,
)
    requires
        0 <= i < bs.len(),
        v0 == base_views + all_moves(state, bs.take(i)),
        v1 == v0 + block_moves(state, bs[i]),
    ensures
        v1 == base_views + all_moves(state, bs.take(i + 1)),
{
    lemma_all_moves_take_step(state, bs, i);
    assert(v1 =~= base_views + all_moves(state, bs.take(i + 1)));
}

/// After one block's slides are appended, every listed board is still the
/// result of a legal slide, and every slide of the blocks handled so far is
/// still listed.
proof fn lemma_next_transfer(
    state: Seq<Cell>,
    bs: Seq<Block>,
    b: Block,
    i: int,
    base: int,
    ret0: Seq<Board>,
    ret1: Seq<Board>,
)
    requires
        0 <= i < bs.len(),
        b == bs[i],
        0 <= base <= ret0.len() <= ret1.len(),
        forall|j: int| 0 <= j < ret0.len() ==> ret1[j] == ret0[j],
        forall|j: int| base <= j < ret0.len() ==> generated_ok(state, bs, #[trigger] ret0[j]),
        forall|j: int|
            ret0.len() <= j < ret1.len() ==> exists|d: Dir|
                #[trigger] move_ok(state, b, d) && (#[trigger] ret1[j])@ == apply_move(state, b, d),
        forall|ii: int, d: Dir|
            0 <= ii < i && #[trigger] move_ok(state, bs[ii], d) ==> holds_board(
                ret0,
                base,
                apply_move(state, bs[ii], d),
            ),
        forall|d: Dir|
            #[trigger] move_ok(state, b, d) ==> exists|j: int|
                ret0.len() <= j < ret1.len() && (#[trigger] ret1[j])@ == apply_move(state, b, d),
    ensures
        forall|j: int| base <= j < ret1.len() ==> generated_ok(state, bs, #[trigger] ret1[j]),
        forall|ii: int, d: Dir|
            0 <= ii < i + 1 && #[trigger] move_ok(state, bs[ii], d) ==> holds_board(
                ret1,
                base,
                apply_move(state, bs[ii], d),
            ),
{
    assert forall|j: int| base <= j < ret1.len() implies generated_ok(
        state,
        bs,
        #[trigger] ret1[j],
    ) by {
        if j >= ret0.len() {
            let d = choose|d: Dir|
                #[trigger] move_ok(state, b, d) && (ret1[j])@ == apply_move(state, b, d);
            assert(move_ok(state, bs[i], d));
            assert(generated_ok(state, bs, ret1[j]));
        } else {
            assert(ret1[j] == ret0[j]);
            assert(generated_ok(state, bs, ret0[j]));
        }
    }
    assert forall|ii: int, d: Dir|
        0 <= ii < i + 1 && #[trigger] move_ok(state, bs[ii], d) implies holds_board(
        ret1,
        base,
        apply_move(state, bs[ii], d),
    ) by {
        let t = apply_move(state, bs[ii], d);
        if ii < i {
            let j = choose|j: int| base <= j < ret0.len() && (#[trigger] ret0[j])@ == t;
            assert(ret1[j] == ret0[j]);
            assert((ret1[j])@ == t);
        } else {
            assert(bs[ii] == b);
            let j = choose|j: int| ret0.len() <= j < ret1.len() && (#[trigger] ret1[j])@ == t;
            assert((ret1[j])@ == t);
        }
    }
}

/// The board `nb` is the result of one legal slide of one of the blocks `bs`
/// on the grid `s`.
pub open spec fn generated_ok(s: Seq<Cell>, bs: Seq<Block>, nb: Board) -> bool {
    exists|i: int, d: Dir|
        0 <= i < bs.len() && #[trigger] move_ok(s, bs[i], d) && nb@ == apply_move(s, bs[i], d)
}

/// Some board at index `lo` or later of `rs` holds exactly the grid `target`.
pub open spec fn holds_board(rs: Seq<Board>, lo: int, target: Seq<Cell>) -> bool {
    exists|j: int| lo <= j < rs.len() && (#[trigger] rs[j])@ == target
}

/// Try one slide of one block, appending the result when it is legal.
fn push_dir(s: &Board, b: Block, d: Dir, ret: &mut Vec<Board>)
    requires
        s.wf(),
        seated(s@, b),
    ensures
        final(ret)@.len() >= old(ret)@.len(),
        forall|j: int| 0 <= j < old(ret)@.len() ==> #[trigger] final(ret)@[j] == old(ret)@[j],
        views_of(final(ret)@) == views_of(old(ret)@) + dir_move_of(s@, b, d),
        move_ok(s@, b, d) ==> final(ret)@.len() == old(ret)@.len() + 1 && (final(ret)@[old(
            ret,
        )@.len() as int])@ == apply_move(s@, b, d),
        !move_ok(s@, b, d) ==> final(ret)@ == old(ret)@,
{
    if let Some(nb) = try_move(s, b, d) {
        ret.push(nb);
    }
    proof {
        assert(views_of(ret@) =~= views_of(old(ret)@) + dir_move_of(s@, b, d));
    }
}

/// Concatenation of generated segments re-associates.
proof fn lemma_views_concat(
    v0: Seq<Seq<Cell>>,
    v1: Seq<Seq<Cell>>,
    v2: Seq<Seq<Cell>>,
    a: Seq<Seq<Cell>>,
    b: Seq<Seq<Cell>>,
)
    requires
        v1 == v0 + a,
        v2 == v1 + b,
    ensures
        v2 == v0 + (a + b),
{
    assert(v2 =~= v0 + (a + b));
}

/// Composing the eight slide trials: the appended grids are exactly
/// `block_moves`, and the earlier boards are untouched.
#[verifier::rlimit(100)]
proof fn lemma_push_views(
    s: Seq<Cell>,
    b: Block,
    r0: Seq<Board>,
    r1: Seq<Board>,
    r2: Seq<Board>,
    r3: Seq<Board>,
    r4: Seq<Board>,
    r5: Seq<Board>,
    r6: Seq<Board>,
    r7: Seq<Board>,
    r8: Seq<Board>,
)
    requires
        views_of(r1) == views_of(r0) + dir_move_of(s, b, Dir::Up),
        forall|j: int| 0 <= j < r0.len() ==> #[trigger] r1[j] == r0[j],
        move_ok(s, b, Dir::Up) ==> r1.len() == r0.len() + 1 && (r1[r0.len() as int])@
            == apply_move(s, b, Dir::Up),
        !move_ok(s, b, Dir::Up) ==> r1 == r0,
        views_of(r2) == views_of(r1) + dir_move_of(s, b, Dir::Up2),
        forall|j: int| 0 <= j < r1.len() ==> #[trigger] r2[j] == r1[j],
        move_ok(s, b, Dir::Up2) ==> r2.len() == r1.len() + 1 && (r2[r1.len() as int])@
            == apply_move(s, b, Dir::Up2),
        !move_ok(s, b, Dir::Up2) ==> r2 == r1,
        views_of(r3) == views_of(r2) + dir_move_of(s, b, Dir::Down),
        forall|j: int| 0 <= j < r2.len() ==> #[trigger] r3[j] == r2[j],
        move_ok(s, b, Dir::Down) ==> r3.len() == r2.len() + 1 && (r3[r2.len() as int])@
            == apply_move(s, b, Dir::Down),
        !move_ok(s, b, Dir::Down) ==> r3 == r2,
        views_of(r4) == views_of(r3) + dir_move_of(s, b, Dir::Down2),
        forall|j: int| 0 <= j < r3.len() ==> #[trigger] r4[j] == r3[j],
        move_ok(s, b, Dir::Down2) ==> r4.len() == r3.len() + 1 && (r4[r3.len() as int])@
            == apply_move(s, b, Dir::Down2),
        !move_ok(s, b, Dir::Down2) ==> r4 == r3,
        views_of(r5) == views_of(r4) + dir_move_of(s, b, Dir::Left),
        forall|j: int| 0 <= j < r4.len() ==> #[trigger] r5[j] == r4[j],
        move_ok(s, b, Dir::Left) ==> r5.len() == r4.len() + 1 && (r5[r4.len() as int])@
            == apply_move(s, b, Dir::Left),
        !move_ok(s, b, Dir::Left) ==> r5 == r4,
        views_of(r6) == views_of(r5) + dir_move_of(s, b, Dir::Left2),
        forall|j: int| 0 <= j < r5.len() ==> #[trigger] r6[j] == r5[j],
        move_ok(s, b, Dir::Left2) ==> r6.len() == r5.len() + 1 && (r6[r5.len() as int])@
            == apply_move(s, b, Dir::Left2),
        !move_ok(s, b, Dir::Left2) ==> r6 == r5,
        views_of(r7) == views_of(r6) + dir_move_of(s, b, Dir::Right),
        forall|j: int| 0 <= j < r6.len() ==> #[trigger] r7[j] == r6[j],
        move_ok(s, b, Dir::Right) ==> r7.len() == r6.len() + 1 && (r7[r6.len() as int])@
            == apply_move(s, b, Dir::Right),
        !move_ok(s, b, Dir::Right) ==> r7 == r6,
        views_of(r8) == views_of(r7) + dir_move_of(s, b, Dir::Right2),
        forall|j: int| 0 <= j < r7.len() ==> #[trigger] r8[j] == r7[j],
        move_ok(s, b, Dir::Right2) ==> r8.len() == r7.len() + 1 && (r8[r7.len() as int])@
            == apply_move(s, b, Dir::Right2),
        !move_ok(s, b, Dir::Right2) ==> r8 == r7,
    ensures
        r8.len() >= r0.len(),
        forall|j: int| 0 <= j < r0.len() ==> #[trigger] r8[j] == r0[j],
        views_of(r8) == views_of(r0) + block_moves(s, b),
{
    let a1 = dir_move_of(s, b, Dir::Up);
    let a2 = dir_move_of(s, b, Dir::Up2);
    let a3 = dir_move_of(s, b, Dir::Down);
    let a4 = dir_move_of(s, b, Dir::Down2);
    let a5 = dir_move_of(s, b, Dir::Left);
    let a6 = dir_move_of(s, b, Dir::Left2);
    let a7 = dir_move_of(s, b, Dir::Right);
    let a8 = dir_move_of(s, b, Dir::Right2);
    lemma_views_concat(views_of(r0), views_of(r1), views_of(r2), a1, a2);
    lemma_views_concat(views_of(r0), views_of(r2), views_of(r3), a1 + a2, a3);
    lemma_views_concat(views_of(r0), views_of(r3), views_of(r4), a1 + a2 + a3, a4);
    lemma_views_concat(views_of(r0), views_of(r4), views_of(r5), a1 + a2 + a3 + a4, a5);
    lemma_views_concat(views_of(r0), views_of(r5), views_of(r6), a1 + a2 + a3 + a4 + a5, a6);
    lemma_views_concat(views_of(r0), views_of(r6), views_of(r7), a1 + a2 + a3 + a4 + a5 + a6, a7);
    lemma_views_concat(
        views_of(r0),
        views_of(r7),
        views_of(r8),
        a1 + a2 + a3 + a4 + a5 + a6 + a7,
        a8,
    );
}

/// Composing the eight slide trials: every legal slide's board was appended.
#[verifier::rlimit(100)]
proof fn lemma_push_complete(
    s: Seq<Cell>,
    b: Block,
    r0: Seq<Board>,
    r1: Seq<Board>,
    r2: Seq<Board>,
    r3: Seq<Board>,
    r4: Seq<Board>,
    r5: Seq<Board>,
    r6: Seq<Board>,
    r7: Seq<Board>,
    r8: Seq<Board>,
)
    requires
        views_of(r1) == views_of(r0) + dir_move_of(s, b, Dir::Up),
        forall|j: int| 0 <= j < r0.len() ==> #[trigger] r1[j] == r0[j],
        move_ok(s, b, Dir::Up) ==> r1.len() == r0.len() + 1 && (r1[r0.len() as int])@
            == apply_move(s, b, Dir::Up),
        !move_ok(s, b, Dir::Up) ==> r1 == r0,
        views_of(r2) == views_of(r1) + dir_move_of(s, b, Dir::Up2),
        forall|j: int| 0 <= j < r1.len() ==> #[trigger] r2[j] == r1[j],
        move_ok(s, b, Dir::Up2) ==> r2.len() == r1.len() + 1 && (r2[r1.len() as int])@
            == apply_move(s, b, Dir::Up2),
        !move_ok(s, b, Dir::Up2) ==> r2 == r1,
        views_of(r3) == views_of(r2) + dir_move_of(s, b, Dir::Down),
        forall|j: int| 0 <= j < r2.len() ==> #[trigger] r3[j] == r2[j],
        move_ok(s, b, Dir::Down) ==> r3.len() == r2.len() + 1 && (r3[r2.len() as int])@
            == apply_move(s, b, Dir::Down),
        !move_ok(s, b, Dir::Down) ==> r3 == r2,
        views_of(r4) == views_of(r3) + dir_move_of(s, b, Dir::Down2),
        forall|j: int| 0 <= j < r3.len() ==> #[trigger] r4[j] == r3[j],
        move_ok(s, b, Dir::Down2) ==> r4.len() == r3.len() + 1 && (r4[r3.len() as int])@
            == apply_move(s, b, Dir::Down2),
        !move_ok(s, b, Dir::Down2) ==> r4 == r3,
        views_of(r5) == views_of(r4) + dir_move_of(s, b, Dir::Left),
        forall|j: int| 0 <= j < r4.len() ==> #[trigger] r5[j] == r4[j],
        move_ok(s, b, Dir::Left) ==> r5.len() == r4.len() + 1 && (r5[r4.len() as int])@
            == apply_move(s, b, Dir::Left),
        !move_ok(s, b, Dir::Left) ==> r5 == r4,
        views_of(r6) == views_of(r5) + dir_move_of(s, b, Dir::Left2),
        forall|j: int| 0 <= j < r5.len() ==> #[trigger] r6[j] == r5[j],
        move_ok(s, b, Dir::Left2) ==> r6.len() == r5.len() + 1 && (r6[r5.len() as int])@
            == apply_move(s, b, Dir::Left2),
        !move_ok(s, b, Dir::Left2) ==> r6 == r5,
        views_of(r7) == views_of(r6) + dir_move_of(s, b, Dir::Right),
        forall|j: int| 0 <= j < r6.len() ==> #[trigger] r7[j] == r6[j],
        move_ok(s, b, Dir::Right) ==> r7.len() == r6.len() + 1 && (r7[r6.len() as int])@
            == apply_move(s, b, Dir::Right),
        !move_ok(s, b, Dir::Right) ==> r7 == r6,
        views_of(r8) == views_of(r7) + dir_move_of(s, b, Dir::Right2),
        forall|j: int| 0 <= j < r7.len() ==> #[trigger] r8[j] == r7[j],
        move_ok(s, b, Dir::Right2) ==> r8.len() == r7.len() + 1 && (r8[r7.len() as int])@
            == apply_move(s, b, Dir::Right2),
        !move_ok(s, b, Dir::Right2) ==> r8 == r7,
    ensures
        forall|d: Dir|
            #[trigger] move_ok(s, b, d) ==> exists|j: int|
                r0.len() <= j < r8.len() && (#[trigger] r8[j])@ == apply_move(s, b, d),
{
    assert forall|d: Dir| #[trigger] move_ok(s, b, d) implies exists|j: int|
        r0.len() <= j < r8.len() && (#[trigger] r8[j])@ == apply_move(s, b, d) by {
            if d == Dir::Up {
                assert((r1[r0.len() as int])@ == apply_move(s, b, d));
                assert((r8[r0.len() as int])@ == apply_move(s, b, d));
            } else if d == Dir::Up2 {
                assert((r2[r1.len() as int])@ == apply_move(s, b, d));
                assert((r8[r1.len() as int])@ == apply_move(s, b, d));
            } else if d == Dir::Down {
                assert((r3[r2.len() as int])@ == apply_move(s, b, d));
                assert((r8[r2.len() as int])@ == apply_move(s, b, d));
            } else if d == Dir::Down2 {
                assert((r4[r3.len() as int])@ == apply_move(s, b, d));
                assert((r8[r3.len() as int])@ == apply_move(s, b, d));
            } else if d == Dir::Left {
                assert((r5[r4.len() as int])@ == apply_move(s, b, d));
                assert((r8[r4.len() as int])@ == apply_move(s, b, d));
            } else if d == Dir::Left2 {
                assert((r6[r5.len() as int])@ == apply_move(s, b, d));
                assert((r8[r5.len() as int])@ == apply_move(s, b, d));
            } else if d == Dir::Right {
                assert((r7[r6.len() as int])@ == apply_move(s, b, d));
                assert((r8[r6.len() as int])@ == apply_move(s, b, d));
            } else if d == Dir::Right2 {
                assert((r8[r7.len() as int])@ == apply_move(s, b, d));
                assert((r8[r7.len() as int])@ == apply_move(s, b, d));
            }
    }
}

/// Composing the eight slide trials: every appended board is a legal slide's
/// result.
#[verifier::rlimit(100)]
proof fn lemma_push_sound(
    s: Seq<Cell>,
    b: Block,
    r0: Seq<Board>,
    r1: Seq<Board>,
    r2: Seq<Board>,
    r3: Seq<Board>,
    r4: Seq<Board>,
    r5: Seq<Board>,
    r6: Seq<Board>,
    r7: Seq<Board>,
    r8: Seq<Board>,
)
    requires
        views_of(r1) == views_of(r0) + dir_move_of(s, b, Dir::Up),
        forall|j: int| 0 <= j < r0.len() ==> #[trigger] r1[j] == r0[j],
        move_ok(s, b, Dir::Up) ==> r1.len() == r0.len() + 1 && (r1[r0.len() as int])@
            == apply_move(s, b, Dir::Up),
        !move_ok(s, b, Dir::Up) ==> r1 == r0,
        views_of(r2) == views_of(r1) + dir_move_of(s, b, Dir::Up2),
        forall|j: int| 0 <= j < r1.len() ==> #[trigger] r2[j] == r1[j],
        move_ok(s, b, Dir::Up2) ==> r2.len() == r1.len() + 1 && (r2[r1.len() as int])@
            == apply_move(s, b, Dir::Up2),
        !move_ok(s, b, Dir::Up2) ==> r2 == r1,
        views_of(r3) == views_of(r2) + dir_move_of(s, b, Dir::Down),
        forall|j: int| 0 <= j < r2.len() ==> #[trigger] r3[j] == r2[j],
        move_ok(s, b, Dir::Down) ==> r3.len() == r2.len() + 1 && (r3[r2.len() as int])@
            == apply_move(s, b, Dir::Down),
        !move_ok(s, b, Dir::Down) ==> r3 == r2,
        views_of(r4) == views_of(r3) + dir_move_of(s, b, Dir::Down2),
        forall|j: int| 0 <= j < r3.len() ==> #[trigger] r4[j] == r3[j],
        move_ok(s, b, Dir::Down2) ==> r4.len() == r3.len() + 1 && (r4[r3.len() as int])@
            == apply_move(s, b, Dir::Down2),
        !move_ok(s, b, Dir::Down2) ==> r4 == r3,
        views_of(r5) == views_of(r4) + dir_move_of(s, b, Dir::Left),
        forall|j: int| 0 <= j < r4.len() ==> #[trigger] r5[j] == r4[j],
        move_ok(s, b, Dir::Left) ==> r5.len() == r4.len() + 1 && (r5[r4.len() as int])@
            == apply_move(s, b, Dir::Left),
        !move_ok(s, b, Dir::Left) ==> r5 == r4,
        views_of(r6) == views_of(r5) + dir_move_of(s, b, Dir::Left2),
        forall|j: int| 0 <= j < r5.len() ==> #[trigger] r6[j] == r5[j],
        move_ok(s, b, Dir::Left2) ==> r6.len() == r5.len() + 1 && (r6[r5.len() as int])@
            == apply_move(s, b, Dir::Left2),
        !move_ok(s, b, Dir::Left2) ==> r6 == r5,
        views_of(r7) == views_of(r6) + dir_move_of(s, b, Dir::Right),
        forall|j: int| 0 <= j < r6.len() ==> #[trigger] r7[j] == r6[j],
        move_ok(s, b, Dir::Right) ==> r7.len() == r6.len() + 1 && (r7[r6.len() as int])@
            == apply_move(s, b, Dir::Right),
        !move_ok(s, b, Dir::Right) ==> r7 == r6,
        views_of(r8) == views_of(r7) + dir_move_of(s, b, Dir::Right2),
        forall|j: int| 0 <= j < r7.len() ==> #[trigger] r8[j] == r7[j],
        move_ok(s, b, Dir::Right2) ==> r8.len() == r7.len() + 1 && (r8[r7.len() as int])@
            == apply_move(s, b, Dir::Right2),
        !move_ok(s, b, Dir::Right2) ==> r8 == r7,
    ensures
        forall|j: int|
            r0.len() <= j < r8.len() ==> exists|d: Dir|
                #[trigger] move_ok(s, b, d) && (#[trigger] r8[j])@ == apply_move(s, b, d),
{
    assert forall|j: int|
        r0.len() <= j < r8.len() implies exists|d: Dir|
            #[trigger] move_ok(s, b, d) && (#[trigger] r8[j])@ == apply_move(s, b, d) by {
            if j < r1.len() {
                assert(move_ok(s, b, Dir::Up));
                assert((r1[j])@ == apply_move(s, b, Dir::Up));
                assert((r8[j])@ == apply_move(s, b, Dir::Up));
            } else if j < r2.len() {
                assert(move_ok(s, b, Dir::Up2));
                assert((r2[j])@ == apply_move(s, b, Dir::Up2));
                assert((r8[j])@ == apply_move(s, b, Dir::Up2));
            } else if j < r3.len() {
                assert(move_ok(s, b, Dir::Down));
                assert((r3[j])@ == apply_move(s, b, Dir::Down));
                assert((r8[j])@ == apply_move(s, b, Dir::Down));
            } else if j < r4.len() {
                assert(move_ok(s, b, Dir::Down2));
                assert((r4[j])@ == apply_move(s, b, Dir::Down2));
                assert((r8[j])@ == apply_move(s, b, Dir::Down2));
            } else if j < r5.len() {
                assert(move_ok(s, b, Dir::Left));
                assert((r5[j])@ == apply_move(s, b, Dir::Left));
                assert((r8[j])@ == apply_move(s, b, Dir::Left));
            } else if j < r6.len() {
                assert(move_ok(s, b, Dir::Left2));
                assert((r6[j])@ == apply_move(s, b, Dir::Left2));
                assert((r8[j])@ == apply_move(s, b, Dir::Left2));
            } else if j < r7.len() {
                assert(move_ok(s, b, Dir::Right));
                assert((r7[j])@ == apply_move(s, b, Dir::Right));
                assert((r8[j])@ == apply_move(s, b, Dir::Right));
            } else if j < r8.len() {
                assert(move_ok(s, b, Dir::Right2));
                assert((r8[j])@ == apply_move(s, b, Dir::Right2));
                assert((r8[j])@ == apply_move(s, b, Dir::Right2));
            }
    }
}

/// Try all eight slides of one block in the generator's fixed trial order,
/// appending each legal result: exactly the boards of `block_moves`.
fn push_block_moves(s: &Board, b: Block, ret: &mut Vec<Board>)
    requires
        s.wf(),
        seated(s@, b),
    ensures
        final(ret)@.len() >= old(ret)@.len(),
        forall|j: int| 0 <= j < old(ret)@.len() ==> #[trigger] final(ret)@[j] == old(ret)@[j],
        forall|j: int|
            old(ret)@.len() <= j < final(ret)@.len() ==> exists|d: Dir|
                #[trigger] move_ok(s@, b, d) && (#[trigger] final(ret)@[j])@ == apply_move(s@, b, d),
        forall|j: int|
            old(ret)@.len() <= j < final(ret)@.len() ==> (#[trigger] final(ret)@[j]).wf(),
        forall|d: Dir|
            #[trigger] move_ok(s@, b, d) ==> exists|j: int|
                old(ret)@.len() <= j < final(ret)@.len() && (#[trigger] final(ret)@[j])@
                    == apply_move(s@, b, d),
        views_of(final(ret)@) == views_of(old(ret)@) + block_moves(s@, b),
{
    let ghost r0 = ret@;
    push_dir(s, b, Dir::Up, ret);
    let ghost r1 = ret@;
    push_dir(s, b, Dir::Up2, ret);
    let ghost r2 = ret@;
    push_dir(s, b, Dir::Down, ret);
    let ghost r3 = ret@;
    push_dir(s, b, Dir::Down2, ret);
    let ghost r4 = ret@;
    push_dir(s, b, Dir::Left, ret);
    let ghost r5 = ret@;
    push_dir(s, b, Dir::Left2, ret);
    let ghost r6 = ret@;
    push_dir(s, b, Dir::Right, ret);
    let ghost r7 = ret@;
    push_dir(s, b, Dir::Right2, ret);
    proof {
        lemma_push_views(s@, b, r0, r1, r2, r3, r4, r5, r6, r7, ret@);
        lemma_push_complete(s@, b, r0, r1, r2, r3, r4, r5, r6, r7, ret@);
        lemma_push_sound(s@, b, r0, r1, r2, r3, r4, r5, r6, r7, ret@);
        assert forall|j: int|
            old(ret)@.len() <= j < ret@.len() implies (#[trigger] ret@[j]).wf() by {
            let d = choose|d: Dir|
                #[trigger] move_ok(s@, b, d) && (ret@[j])@ == apply_move(s@, b, d);
            lemma_move_effect(s@, b, d);
        }
    }
}

} // verus!
