use vstd::prelude::*;

use std::rc::Rc;

use crate::board::Board;
use crate::board::Cell;
use crate::board::idx;
use crate::blocks::Game;
use crate::blocks::generated_ok;
use crate::blocks::scan_move;
use crate::blocks::scan_of;
use crate::blocks::valid_board;
use crate::error::Error;
use crate::moves::Dir;
use crate::moves::apply_move;
use crate::moves::lemma_move_effect;
use crate::moves::move_ok;

verus! {

/// The goal: the general's footprint reaches the two bottom-center cells.
pub open spec fn is_goal(s: Seq<Cell>) -> bool {
    s[idx(1, 4)] == Cell::General && s[idx(2, 4)] == Cell::General
}

/// One node of the search tree: a board, a link to the node it was reached
/// from (absent for the root), and its distance from the root in moves.
pub struct Node {
    pub val: Board,
    pub parent: Option<Rc<Node>>,
    pub len: usize,
}

impl Node {
    /// The chain from the root to this node is a run of legal slides of
    /// scanned blocks, with `len` counting them.
    pub open spec fn wf_chain(self) -> bool
        decreases self,
    {
        &&& self.val.wf()
        &&& match self.parent {
            None => self.len == 0,
            Some(p) => p.wf_chain() && self.len == p.len + 1 && scan_move(p.val@, self.val@),
        }
    }

    /// No strict ancestor of this node already satisfies the goal: the chain
    /// reaches the goal, if at all, only at its end.
    pub open spec fn ancestors_unsolved(self) -> bool
        decreases self,
    {
        match self.parent {
            None => true,
            Some(p) => !is_goal(p.val@) && p.ancestors_unsolved(),
        }
    }

    /// The board this node's chain starts from.
    pub open spec fn root(self) -> Seq<Cell>
        decreases self,
    {
        match self.parent {
            None => self.val@,
            Some(p) => p.root(),
        }
    }

    /// Whether this node's board satisfies the goal.
    pub fn is_finish(&self) -> (r: bool)
        requires
            self.val.wf(),
        ensures
            r == is_goal(self.val@),
    {
        self.val.get(1, 4) == Cell::General && self.val.get(2, 4) == Cell::General
    }
}

/// Whether some node of `v` holds exactly the grid of `b`.
fn contains_board(v: &Vec<Rc<Node>>, b: &Board) -> (r: bool)
    requires
        b.wf(),
        forall|k: int| 0 <= k < v@.len() ==> (#[trigger] v@[k]).val.wf(),
    ensures
        r <==> exists|k: int| 0 <= k < v@.len() && (#[trigger] v@[k]).val@ == b@,
{
    let mut k: usize = 0;
    while k < v.len()
        invariant
            b.wf(),
            k <= v@.len(),
            forall|kk: int| 0 <= kk < v@.len() ==> (#[trigger] v@[kk]).val.wf(),
            forall|kk: int| 0 <= kk < k ==> (#[trigger] v@[kk]).val@ != b@,
        decreases v@.len() - k,
    {
        if v[k].val.same_as(b) {
            return true;
        }
        k = k + 1;
    }
    false
}

/// A list of distinct boards, each reached from `start` by a chain of legal
/// slides: a witness that the search graph holds at least that many states.
pub open spec fn distinct_reachable(ns: Seq<Rc<Node>>, start: Seq<Cell>) -> bool {
    &&& forall|k: int|
        0 <= k < ns.len() ==> (#[trigger] ns[k]).wf_chain() && ns[k].root() == start
    &&& forall|k1: int, k2: int|
        0 <= k1 < k2 < ns.len() ==> (#[trigger] ns[k1]).val@ != (#[trigger] ns[k2]).val@
}

/// The search frontier: the nodes discovered but not yet expanded, the nodes
/// already expanded, and the validated start grid they all descend from.
pub struct HRD {
    pub open_set: Vec<Rc<Node>>,
    pub close_set: Vec<Rc<Node>>,
    pub start: Ghost<Seq<Cell>>,
}

impl HRD {
    /// Validate the start board and seed the frontier with its root node at
    /// depth 0.
    pub fn new(state: &Board) -> (r: Result<HRD, Error>)
        requires
            state.wf(),
        ensures
            r matches Ok(h) ==> {
                &&& h.start@ == state@
                &&& h.open_set@.len() == 1
                &&& h.open_set@[0].val@ == state@
                &&& h.open_set@[0].val.wf()
                &&& h.open_set@[0].parent is None
                &&& h.open_set@[0].len == 0
                &&& h.close_set@.len() == 0
            },
            r is Ok <==> valid_board(state@),
            r matches Err(e) ==> e == Error::InvalidBoard,
    {
        match Game::new(state) {
            Err(e) => Err(e),
            Ok(_) => {
                let root = Node { val: state.dup(), parent: None, len: 0 };
                let mut open_set: Vec<Rc<Node>> = Vec::new();
                open_set.push(Rc::new(root));
                Ok(HRD { open_set, close_set: Vec::new(), start: Ghost(state@) })
            },
        }
    }

    /// Expand nodes in breadth-first order (always a node of minimum depth;
    /// ties fall to the earliest-inserted one) until the goal is reached, the
    /// frontier runs dry, or `limit` nodes exist. A returned node carries a
    /// chain of legal slides from the start board to a goal board.
    #[verifier::loop_isolation(false)]
    #[verifier::rlimit(60)]
    pub fn solve(self, limit: usize) -> (r: Result<Node, Error>)
        requires
            self.open_set@.len() == 1,
            self.open_set@[0].val@ == self.start@,
            self.open_set@[0].val.wf(),
            self.open_set@[0].parent is None,
            self.open_set@[0].len == 0,
            self.close_set@.len() == 0,
        ensures
            r matches Ok(n) ==> n.wf_chain() && n.root() == self.start@ && is_goal(n.val@)
                && n.ancestors_unsolved(),
            r matches Err(e) ==> (e == Error::Unsolvable || e == Error::BudgetExceeded(limit)),
            r matches Err(e) && e == Error::BudgetExceeded(limit) ==> exists|ns: Seq<Rc<Node>>|
                #[trigger] distinct_reachable(ns, self.start@) && ns.len() >= limit,
            is_goal(self.start@) ==> (r matches Ok(n) && n.len == 0 && n.val@ == self.start@),
            !is_goal(self.start@) && limit <= 1 ==> (r matches Err(e) && e == Error::BudgetExceeded(
                limit,
            )),
    {
        let ghost start = self.start@;
        let mut open = self.open_set;
        let mut closed = self.close_set;
        let mut kids: Vec<Board> = Vec::new();
        loop
            invariant
                forall|k: int| 0 <= k < open@.len() ==> (#[trigger] open@[k]).wf_chain(),
                forall|k: int| 0 <= k < open@.len() ==> (#[trigger] open@[k]).root() == start,
                forall|k: int| 0 <= k < open@.len() ==> (#[trigger] open@[k]).val.wf(),
                forall|k: int| 0 <= k < open@.len() ==> (#[trigger] open@[k]).ancestors_unsolved(),
                forall|k: int| 0 <= k < closed@.len() ==> (#[trigger] closed@[k]).wf_chain(),
                forall|k: int| 0 <= k < closed@.len() ==> (#[trigger] closed@[k]).root() == start,
                forall|k: int| 0 <= k < closed@.len() ==> (#[trigger] closed@[k]).val.wf(),
                forall|k: int| 0 <= k < open@.len() ==> (#[trigger] open@[k]).len <= closed@.len(),
                closed@.len() <= limit,
                kids@.len() == 0,
                forall|k1: int, k2: int|
                    0 <= k1 < k2 < closed@.len() ==> (#[trigger] closed@[k1]).val@ != (
                    #[trigger] closed@[k2]).val@,
                forall|k1: int, k2: int|
                    0 <= k1 < k2 < open@.len() ==> (#[trigger] open@[k1]).val@ != (
                    #[trigger] open@[k2]).val@,
                forall|k1: int, k2: int|
                    0 <= k1 < open@.len() && 0 <= k2 < closed@.len() ==> (#[trigger] open@[k1]).val@
                        != (#[trigger] closed@[k2]).val@,
                is_goal(start) ==> open@.len() == 1 && open@[0].val@ == start && open@[0].len == 0
                    && closed@.len() == 0,
                !is_goal(start) && limit <= 1 ==> open@.len() == 1 && open@[0].val@ == start
                    && closed@.len() == 0,
            decreases limit - closed@.len(),
        {
            if open.len() == 0 {
                return Err(Error::Unsolvable);
            }
            // breadth-first selection: the first node of minimum depth
            let mut m: usize = 0;
            let mut k: usize = 1;
            while k < open.len()
                invariant
                    open@.len() > 0,
                    m < k,
                    k <= open@.len(),
                decreases open@.len() - k,
            {
                if open[k].len < open[m].len {
                    m = k;
                }
                k = k + 1;
            }
            if open[m].is_finish() {
                let node = open.remove(m);
                let out = Node {
                    val: node.val.dup(),
                    parent: match &node.parent {
                        None => None,
                        Some(p) => Some(Rc::clone(p)),
                    },
                    len: node.len,
                };
                return Ok(out);
            }
            if open.len() >= limit - closed.len() {
                proof {
                    let ns = open@ + closed@;
                    assert forall|k: int|
                        0 <= k < ns.len() implies (#[trigger] ns[k]).wf_chain() && ns[k].root()
                        == start by {
                        if k < open@.len() {
                            assert(ns[k] == open@[k]);
                        } else {
                            assert(ns[k] == closed@[k - open@.len()]);
                        }
                    }
                    assert forall|k1: int, k2: int|
                        0 <= k1 < k2 < ns.len() implies (#[trigger] ns[k1]).val@ != (
                        #[trigger] ns[k2]).val@ by {
                        if k2 < open@.len() {
                            assert(ns[k1] == open@[k1] && ns[k2] == open@[k2]);
                        } else if k1 < open@.len() {
                            assert(ns[k1] == open@[k1] && ns[k2] == closed@[k2 - open@.len()]);
                        } else {
                            assert(ns[k1] == closed@[k1 - open@.len()] && ns[k2] == closed@[k2
                                - open@.len()]);
                        }
                    }
                    assert(distinct_reachable(ns, start));
                    assert(ns.len() >= limit);
                }
                return Err(Error::BudgetExceeded(limit));
            }
            let node = open.remove(m);
            closed.push(Rc::clone(&node));
            let game = Game::new_unchecked(&node.val);
            game.next_nodes(&mut kids);
            while kids.len() > 0
                invariant
                    game.wf(),
                    game.state@ == node.val@,
                    node.wf_chain(),
                    node.root() == start,
                    node.len < closed@.len(),
                    closed@.len() <= limit,
                    forall|j: int| 0 <= j < kids@.len() ==> generated_ok(
                        game.state@,
                        game.blocks@,
                        #[trigger] kids@[j],
                    ),
                    !is_goal(node.val@),
                    node.ancestors_unsolved(),
                    forall|k2: int| 0 <= k2 < open@.len() ==> (#[trigger] open@[k2]).wf_chain(),
                    forall|k2: int| 0 <= k2 < open@.len() ==> (#[trigger] open@[k2]).root() == start,
                    forall|k2: int| 0 <= k2 < open@.len() ==> (#[trigger] open@[k2]).val.wf(),
                    forall|k2: int| 0 <= k2 < open@.len() ==> (#[trigger] open@[k2]).ancestors_unsolved(),
                    forall|k2: int| 0 <= k2 < closed@.len() ==> (#[trigger] closed@[k2]).wf_chain(),
                    forall|k2: int| 0 <= k2 < closed@.len() ==> (#[trigger] closed@[k2]).root()
                        == start,
                    forall|k2: int| 0 <= k2 < closed@.len() ==> (#[trigger] closed@[k2]).val.wf(),
                    forall|kk1: int, kk2: int|
                        0 <= kk1 < kk2 < closed@.len() ==> (#[trigger] closed@[kk1]).val@ != (
                        #[trigger] closed@[kk2]).val@,
                    forall|k2: int| 0 <= k2 < open@.len() ==> (#[trigger] open@[k2]).len
                        <= closed@.len(),
                    forall|k1: int, k2: int|
                        0 <= k1 < k2 < open@.len() ==> (#[trigger] open@[k1]).val@ != (
                        #[trigger] open@[k2]).val@,
                    forall|k1: int, k2: int|
                        0 <= k1 < open@.len() && 0 <= k2 < closed@.len() ==> (
                        #[trigger] open@[k1]).val@ != (#[trigger] closed@[k2]).val@,
                    !(is_goal(start) || (!is_goal(start) && limit <= 1)),
                decreases kids@.len(),
            {
                if let Some(kid) = kids.pop() {
                    proof {
                        let (i, d) = choose|i: int, d: Dir|
                            0 <= i < game.blocks@.len() && #[trigger] move_ok(
                                game.state@,
                                game.blocks@[i],
                                d,
                            ) && kid@ == apply_move(game.state@, game.blocks@[i], d);
                        lemma_move_effect(game.state@, game.blocks@[i], d);
                        assert(kid.wf());
                        assert(game.blocks@[i] == scan_of(node.val@).blocks[i]);
                        assert(scan_move(node.val@, kid@));
                    }
                    if !contains_board(&open, &kid) && !contains_board(&closed, &kid) {
                        let child = Node {
                            val: kid,
                            parent: Some(Rc::clone(&node)),
                            len: node.len + 1,
                        };
                        proof {
                            assert(child.wf_chain());
                        }
                        open.push(Rc::new(child));
                    }
                }
            }
        }
    }
}

} // verus!
